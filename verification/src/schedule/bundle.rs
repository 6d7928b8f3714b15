//! The result of processing GTFS archives for the routing graph, and how the results
//! of several archives are merged into one graph with dense edge ids.
use vstd::prelude::*;
use vstd::relations::{sorted_by, total_ordering};

use std::collections::HashMap;

use crate::schedule::fq_ops::opt_string_view;
use crate::schedule::metadata::{
    Metadata, MetadataView, merge_fits, merge_metadata, merge_ok, merge_view_ok, merged_metadata, merged_view,
    metadata_view,
};
use crate::schedule::rows::{DateMapping, ScheduleRow, clone_opt_string};
use crate::schedule::metadata::str_eq;

verus! {

broadcast use {
    vstd::std_specs::hash::group_hash_axioms,
    vstd::seq_lib::group_to_multiset_ensures,
    vstd::multiset::group_multiset_axioms,
};

/// An edge of the routing graph: its id, the vertices it joins, and its length in
/// meters, a float held as its bit pattern.
#[derive(Clone, Copy, Debug, PartialEq, Eq, Structural)]
pub struct EdgeConfig {
    pub edge_id: usize,
    pub src_vertex_id: usize,
    pub dst_vertex_id: usize,
    pub distance_bits: u64,
}

/// An edge of the routing graph served by transit, with its line geometry (each
/// coordinate as the bit patterns of its x and y) and the schedule rows along it.
#[derive(Debug)]
pub struct GtfsEdge {
    pub edge: EdgeConfig,
    pub geometry: Vec<(u64, u64)>,
    pub schedules: Vec<ScheduleRow>,
}

/// A schedule row as plain values.
pub struct RowView {
    pub edge_id: int,
    pub feed_id: Option<Seq<char>>,
    pub route_id: Seq<char>,
    pub service_id: Seq<char>,
    pub agency_id: Option<Seq<char>>,
    pub departure: int,
    pub arrival: int,
}

pub open spec fn row_view(r: ScheduleRow) -> RowView {
    RowView {
        edge_id: r.edge_id as int,
        feed_id: opt_string_view(r.feed_id),
        route_id: r.route_id@,
        service_id: r.service_id@,
        agency_id: opt_string_view(r.agency_id),
        departure: r.src_departure_time.nanos as int,
        arrival: r.dst_arrival_time.nanos as int,
    }
}

pub open spec fn rows_view(rows: Seq<ScheduleRow>) -> Seq<RowView> {
    rows.map_values(|r: ScheduleRow| row_view(r))
}

/// A row moved to another edge.
pub open spec fn with_edge_id(r: RowView, edge_id: int) -> RowView {
    RowView { edge_id, ..r }
}

/// Rows moved to another edge.
pub open spec fn renumbered(rows: Seq<RowView>, edge_id: int) -> Seq<RowView> {
    rows.map_values(|r: RowView| with_edge_id(r, edge_id))
}

/// The lexicographic order of integer triples, the order of std's tuples.
pub open spec fn triple_le(a: (i128, i128, usize), b: (i128, i128, usize)) -> bool {
    a.0 < b.0 || (a.0 == b.0 && (a.1 < b.1 || (a.1 == b.1 && a.2 <= b.2)))
}

pub open spec fn triple_order() -> spec_fn((i128, i128, usize), (i128, i128, usize)) -> bool {
    |a: (i128, i128, usize), b: (i128, i128, usize)| triple_le(a, b)
}

/// The order of triples is a total order.
pub proof fn lemma_triple_order_total()
    ensures
        total_ordering(triple_order()),
{
}

/// Sorts triples of integers in ascending lexicographic order.
///
/// Calls std's `slice::sort`, which std documents to sort the slice by the `Ord` of
/// its elements; for tuples that order is lexicographic. The elements are only
/// reordered.
#[verifier::external_body]
fn sort_triples(v: &mut Vec<(i128, i128, usize)>)
    ensures
        final(v)@.to_multiset() == old(v)@.to_multiset(),
        sorted_by(final(v)@, triple_order()),
{
    v.sort();
}

/// Sorting gives the sorted sequence of the elements.
proof fn lemma_sorted_is_sort_by(before: Seq<(i128, i128, usize)>, after: Seq<(i128, i128, usize)>)
    requires
        after.to_multiset() == before.to_multiset(),
        sorted_by(after, triple_order()),
    ensures
        after == before.sort_by(triple_order()),
{
    lemma_triple_order_total();
    before.lemma_sort_by_ensures(triple_order());
    vstd::seq_lib::lemma_sorted_unique(after, before.sort_by(triple_order()), triple_order());
}

/// Copies a schedule row onto an edge.
pub(crate) fn copy_row(r: &ScheduleRow, edge_id: usize) -> (c: ScheduleRow)
    ensures
        row_view(c) == with_edge_id(row_view(*r), edge_id as int),
{
    ScheduleRow {
        edge_id,
        feed_id: clone_opt_string(&r.feed_id),
        route_id: r.route_id.clone(),
        service_id: r.service_id.clone(),
        agency_id: clone_opt_string(&r.agency_id),
        src_departure_time: r.src_departure_time,
        dst_arrival_time: r.dst_arrival_time,
    }
}

/// Copies a line geometry.
pub(crate) fn copy_geometry(g: &Vec<(u64, u64)>) -> (c: Vec<(u64, u64)>)
    ensures
        c@ == g@,
{
    let mut out: Vec<(u64, u64)> = Vec::new();
    let mut i: usize = 0;
    while i < g.len()
        invariant
            i <= g@.len(),
            out@ == g@.subrange(0, i as int),
        decreases g@.len() - i,
    {
        out.push(g[i]);
        i = i + 1;
    }
    proof {
        assert(g@.subrange(0, i as int) =~= g@);
    }
    out
}

impl GtfsEdge {
    /// An edge with no schedules yet.
    pub fn new(edge: EdgeConfig, geometry: Vec<(u64, u64)>) -> (r: GtfsEdge)
        ensures
            r.edge == edge,
            r.geometry@ == geometry@,
            r.schedules@.len() == 0,
    {
        GtfsEdge { edge, geometry, schedules: Vec::new() }
    }

    /// Records one more schedule row along this edge.
    pub fn add_schedule(&mut self, row: ScheduleRow)
        ensures
            final(self).edge == old(self).edge,
            final(self).geometry@ == old(self).geometry@,
            final(self).schedules@ == old(self).schedules@.push(row),
    {
        self.schedules.push(row);
    }
}

/// The pair of vertices an edge joins.
pub open spec fn edge_key(e: GtfsEdge) -> (int, int) {
    (e.edge.src_vertex_id as int, e.edge.dst_vertex_id as int)
}

pub open spec fn pair_of(p: (usize, usize)) -> (int, int) {
    (p.0 as int, p.1 as int)
}

/// The lexicographic order of vertex pairs, strict.
pub open spec fn key_lt(a: (int, int), b: (int, int)) -> bool {
    a.0 < b.0 || (a.0 == b.0 && a.1 < b.1)
}

/// The positions, among the first `n` edges, of those joining the pair `k`, in order.
pub open spec fn members_of(es: Seq<GtfsEdge>, k: (int, int), n: int) -> Seq<int>
    decreases n,
{
    if n <= 0 {
        Seq::empty()
    } else {
        members_of(es, k, n - 1) + if edge_key(es[n - 1]) == k {
            seq![n - 1]
        } else {
            Seq::empty()
        }
    }
}

/// Some edge joins the pair `k`.
pub open spec fn has_key(es: Seq<GtfsEdge>, k: (int, int)) -> bool {
    exists|i: int| 0 <= i < es.len() && #[trigger] edge_key(es[i]) == k
}

/// The key used to look a pair of vertices up.
pub open spec fn pair_code(s: int, d: int) -> int {
    s * 0x1_0000_0000_0000_0000 + d
}

pub(crate) proof fn lemma_pair_code_injective(a: int, b: int, c: int, d: int)
    requires
        0 <= a < 0x1_0000_0000_0000_0000,
        0 <= b < 0x1_0000_0000_0000_0000,
        0 <= c < 0x1_0000_0000_0000_0000,
        0 <= d < 0x1_0000_0000_0000_0000,
        pair_code(a, b) == pair_code(c, d),
    ensures
        a == c,
        b == d,
{
    if a > c {
        assert((a - c) * 0x1_0000_0000_0000_0000 >= 0x1_0000_0000_0000_0000) by (nonlinear_arith)
            requires
                a - c >= 1,
        ;
        assert(a * 0x1_0000_0000_0000_0000 - c * 0x1_0000_0000_0000_0000 == (a - c)
            * 0x1_0000_0000_0000_0000) by (nonlinear_arith);
    } else if a < c {
        assert((c - a) * 0x1_0000_0000_0000_0000 >= 0x1_0000_0000_0000_0000) by (nonlinear_arith)
            requires
                c - a >= 1,
        ;
        assert(c * 0x1_0000_0000_0000_0000 - a * 0x1_0000_0000_0000_0000 == (c - a)
            * 0x1_0000_0000_0000_0000) by (nonlinear_arith);
    }
}

pub(crate) fn pair_code_exec(s: usize, d: usize) -> (r: u128)
    ensures
        r == pair_code(s as int, d as int),
{
    assert(s as int * 0x1_0000_0000_0000_0000 <= 0xffff_ffff_ffff_ffff * 0x1_0000_0000_0000_0000)
        by (nonlinear_arith)
        requires
            s <= 0xffff_ffff_ffff_ffff,
    ;
    (s as u128) * 0x1_0000_0000_0000_0000u128 + (d as u128)
}

/// Some edge among the first `n` joins the pair `k`.
pub open spec fn seen(es: Seq<GtfsEdge>, n: int, k: (int, int)) -> bool {
    exists|j: int| 0 <= j < n && #[trigger] edge_key(es[j]) == k
}

/// The pair `k` is one of the listed pairs.
pub open spec fn listed(keys: Seq<(usize, usize)>, k: (int, int)) -> bool {
    exists|g: int| 0 <= g < keys.len() && #[trigger] pair_of(keys[g]) == k
}

pub open spec fn as_ints(v: Seq<usize>) -> Seq<int> {
    v.map_values(|m: usize| m as int)
}

/// The distinct vertex pairs of a list of edges in order of first occurrence, each
/// with the positions of the edges joining it.
fn group_edges(es: &Vec<GtfsEdge>) -> (r: (Vec<(usize, usize)>, Vec<Vec<usize>>))
    ensures
        r.0@.len() == r.1@.len(),
        forall|g: int|
            0 <= g < r.0@.len() ==> as_ints(#[trigger] r.1@[g]@) == members_of(
                es@,
                pair_of(r.0@[g]),
                es@.len() as int,
            ),
        forall|g: int| 0 <= g < r.0@.len() ==> (#[trigger] r.1@[g])@.len() > 0,
        forall|g1: int, g2: int|
            0 <= g1 < r.0@.len() && 0 <= g2 < r.0@.len() && g1 != g2 ==> #[trigger] r.0@[g1]
                != #[trigger] r.0@[g2],
        forall|k: (int, int)| #[trigger] has_key(es@, k) <==> listed(r.0@, k),
{
    let mut keys: Vec<(usize, usize)> = Vec::new();
    let mut members: Vec<Vec<usize>> = Vec::new();
    let mut index: HashMap<u128, usize> = HashMap::new();
    let mut i: usize = 0;
    while i < es.len()
        invariant
            i <= es@.len(),
            keys@.len() == members@.len(),
            forall|g: int|
                0 <= g < keys@.len() ==> as_ints(#[trigger] members@[g]@) == members_of(
                    es@,
                    pair_of(keys@[g]),
                    i as int,
                ),
            forall|g: int| 0 <= g < keys@.len() ==> (#[trigger] members@[g])@.len() > 0,
            forall|g1: int, g2: int|
                0 <= g1 < keys@.len() && 0 <= g2 < keys@.len() && g1 != g2 ==> #[trigger] keys@[g1]
                    != #[trigger] keys@[g2],
            forall|k: (int, int)| #[trigger] seen(es@, i as int, k) <==> listed(keys@, k),
            forall|g: int|
                0 <= g < keys@.len() ==> index@.contains_key(
                    pair_code(keys@[g].0 as int, keys@[g].1 as int) as u128,
                ) && index@[pair_code(keys@[g].0 as int, keys@[g].1 as int) as u128] == g,
            forall|x: u128|
                #[trigger] index@.contains_key(x) ==> index@[x] < keys@.len() && pair_code(
                    keys@[index@[x] as int].0 as int,
                    keys@[index@[x] as int].1 as int,
                ) == x,
        decreases es@.len() - i,
    {
        let s = es[i].edge.src_vertex_id;
        let d = es[i].edge.dst_vertex_id;
        let code = pair_code_exec(s, d);
        let ghost k = (s as int, d as int);
        let ghost old_keys = keys@;
        let ghost old_members = members@;
        match index.get(&code) {
            Some(g_ref) => {
                let g = *g_ref;
                proof {
                    lemma_pair_code_injective(
                        keys@[g as int].0 as int,
                        keys@[g as int].1 as int,
                        s as int,
                        d as int,
                    );
                    assert(pair_of(keys@[g as int]) == k);
                }
                members[g].push(i);
                proof {
                    assert forall|h: int| 0 <= h < keys@.len() implies as_ints(
                        #[trigger] members@[h]@,
                    ) == members_of(es@, pair_of(keys@[h]), i + 1) by {
                        if h == g {
                            assert(as_ints(members@[h]@) =~= as_ints(old_members[h]@) + seq![
                                i as int,
                            ]);
                        } else {
                            assert(pair_of(keys@[h]) != k);
                            assert(members@[h] == old_members[h]);
                        }
                    }
                    assert forall|kk: (int, int)| #[trigger] seen(es@, i + 1, kk) <==> listed(
                        keys@,
                        kk,
                    ) by {
                        if seen(es@, i + 1, kk) {
                            let j = choose|j: int| 0 <= j < i + 1 && #[trigger] edge_key(es@[j]) == kk;
                            if j == i {
                                assert(pair_of(keys@[g as int]) == kk);
                            } else {
                                assert(seen(es@, i as int, kk));
                            }
                        }
                        if listed(keys@, kk) {
                            assert(seen(es@, i as int, kk));
                            let j = choose|j: int| 0 <= j < i && #[trigger] edge_key(es@[j]) == kk;
                            assert(edge_key(es@[j]) == kk);
                        }
                    }
                }
            },
            None => {
                let g = keys.len();
                proof {
                    assert forall|h: int| 0 <= h < keys@.len() implies keys@[h] != (s, d) by {
                        if keys@[h] == (s, d) {
                            assert(index@.contains_key(code));
                        }
                    }
                    assert forall|h: int| 0 <= h < keys@.len() implies pair_of(keys@[h]) != k by {
                        if pair_of(keys@[h]) == k {
                            assert(keys@[h] == (s, d));
                        }
                    }
                    assert(members_of(es@, k, i as int) =~= Seq::empty()) by {
                        if members_of(es@, k, i as int).len() > 0 {
                            lemma_members_of_keys(es@, k, i as int);
                            let j = members_of(es@, k, i as int)[0];
                            assert(0 <= j < i && edge_key(es@[j]) == k);
                            assert(seen(es@, i as int, k));
                            assert(listed(keys@, k));
                        }
                    }
                }
                index.insert(code, g);
                keys.push((s, d));
                let mut first: Vec<usize> = Vec::new();
                first.push(i);
                members.push(first);
                proof {
                    assert forall|h: int| 0 <= h < keys@.len() implies as_ints(
                        #[trigger] members@[h]@,
                    ) == members_of(es@, pair_of(keys@[h]), i + 1) by {
                        if h == g {
                            assert(as_ints(members@[h]@) =~= seq![i as int]);
                            assert(members_of(es@, k, i + 1) =~= seq![i as int]);
                        } else {
                            assert(pair_of(keys@[h]) != k);
                            assert(members@[h] == old_members[h]);
                        }
                    }
                    assert forall|kk: (int, int)| #[trigger] seen(es@, i + 1, kk) <==> listed(
                        keys@,
                        kk,
                    ) by {
                        if seen(es@, i + 1, kk) {
                            let j = choose|j: int| 0 <= j < i + 1 && #[trigger] edge_key(es@[j]) == kk;
                            if j == i {
                                assert(pair_of(keys@[g as int]) == kk);
                            } else {
                                assert(seen(es@, i as int, kk));
                                assert(listed(old_keys, kk));
                                let h = choose|h: int| 0 <= h < old_keys.len() && #[trigger] pair_of(old_keys[h]) == kk;
                                assert(pair_of(keys@[h]) == kk);
                            }
                        }
                        if listed(keys@, kk) {
                            let h = choose|h: int| 0 <= h < keys@.len() && #[trigger] pair_of(keys@[h]) == kk;
                            if h == g {
                                assert(edge_key(es@[i as int]) == kk);
                            } else {
                                assert(pair_of(old_keys[h]) == kk);
                                assert(listed(old_keys, kk));
                                assert(seen(es@, i as int, kk));
                                let j = choose|j: int| 0 <= j < i && #[trigger] edge_key(es@[j]) == kk;
                                assert(edge_key(es@[j]) == kk);
                            }
                        }
                    }
                    assert forall|x: u128| #[trigger] index@.contains_key(x) implies index@[x]
                        < keys@.len() && pair_code(
                        keys@[index@[x] as int].0 as int,
                        keys@[index@[x] as int].1 as int,
                    ) == x by {
                        if x != code {
                            assert(old_keys[index@[x] as int] == keys@[index@[x] as int]);
                        }
                    }
                }
            },
        }
        i = i + 1;
    }
    proof {
        assert forall|kk: (int, int)| #[trigger] has_key(es@, kk) <==> listed(keys@, kk) by {
            assert(has_key(es@, kk) <==> seen(es@, i as int, kk));
        }
    }
    (keys, members)
}

/// Each member position lies before `n` and names an edge joining the pair.
proof fn lemma_members_of_keys(es: Seq<GtfsEdge>, k: (int, int), n: int)
    requires
        n <= es.len(),
    ensures
        forall|t: int|
            0 <= t < members_of(es, k, n).len() ==> 0 <= #[trigger] members_of(es, k, n)[t] < n
                && edge_key(es[members_of(es, k, n)[t]]) == k,
        forall|t1: int, t2: int|
            0 <= t1 < t2 < members_of(es, k, n).len() ==> #[trigger] members_of(es, k, n)[t1]
                < #[trigger] members_of(es, k, n)[t2],
    decreases n,
{
    if n > 0 {
        lemma_members_of_keys(es, k, n - 1);
        let p = members_of(es, k, n - 1);
        let m = members_of(es, k, n);
        assert forall|t: int| 0 <= t < m.len() implies #[trigger] m[t] == if t < p.len() {
            p[t]
        } else {
            n - 1
        } by {}
    }
}

/// The rows of the edges at the given positions, in order.
pub open spec fn concat_rows(es: Seq<GtfsEdge>, idx: Seq<int>) -> Seq<RowView>
    decreases idx.len(),
{
    if idx.len() == 0 {
        Seq::empty()
    } else {
        concat_rows(es, idx.drop_last()) + rows_view(es[idx.last()].schedules@)
    }
}

/// The rows of all edges joining the pair `k`, in the order of the edges.
pub open spec fn group_rows(es: Seq<GtfsEdge>, k: (int, int)) -> Seq<RowView> {
    concat_rows(es, members_of(es, k, es.len() as int))
}

/// The sort keys of rows: departure, arrival and position.
pub open spec fn row_keys(rows: Seq<RowView>) -> Seq<(i128, i128, usize)> {
    Seq::new(rows.len(), |i: int| (rows[i].departure as i128, rows[i].arrival as i128, i as usize))
}

/// Rows in order of departure, then arrival; rows equal in both keep their order.
pub open spec fn sorted_rows(rows: Seq<RowView>) -> Seq<RowView> {
    row_keys(rows).sort_by(triple_order()).map_values(|t: (i128, i128, usize)| rows[t.2 as int])
}

/// Copies the rows of the edges at the given positions onto one edge.
fn gather_rows(es: &Vec<GtfsEdge>, idx: &Vec<usize>, edge_id: usize) -> (r: Vec<ScheduleRow>)
    requires
        forall|t: int| 0 <= t < idx@.len() ==> #[trigger] idx@[t] < es@.len(),
    ensures
        rows_view(r@) == renumbered(concat_rows(es@, as_ints(idx@)), edge_id as int),
{
    let mut out: Vec<ScheduleRow> = Vec::new();
    let mut t: usize = 0;
    while t < idx.len()
        invariant
            t <= idx@.len(),
            forall|u: int| 0 <= u < idx@.len() ==> #[trigger] idx@[u] < es@.len(),
            rows_view(out@) == renumbered(concat_rows(es@, as_ints(idx@.subrange(0, t as int))), edge_id as int),
        decreases idx@.len() - t,
    {
        let rows = &es[idx[t]].schedules;
        let ghost start = out@;
        let mut u: usize = 0;
        while u < rows.len()
            invariant
                u <= rows@.len(),
                rows == es@[idx@[t as int] as int].schedules,
                rows_view(out@) == rows_view(start) + renumbered(rows_view(rows@.subrange(0, u as int)), edge_id as int),
            decreases rows@.len() - u,
        {
            let ghost prev = out@;
            let c = copy_row(&rows[u], edge_id);
            out.push(c);
            proof {
                assert(rows_view(out@) =~= rows_view(prev).push(row_view(c)));
                assert(rows_view(rows@.subrange(0, u + 1)) =~= rows_view(rows@.subrange(0, u as int)).push(
                    row_view(rows@[u as int]),
                ));
                assert(renumbered(rows_view(rows@.subrange(0, u + 1)), edge_id as int) =~= renumbered(
                    rows_view(rows@.subrange(0, u as int)),
                    edge_id as int,
                ).push(with_edge_id(row_view(rows@[u as int]), edge_id as int)));
                assert(rows_view(out@) =~= rows_view(start) + renumbered(
                    rows_view(rows@.subrange(0, u + 1)),
                    edge_id as int,
                ));
            }
            u = u + 1;
        }
        proof {
            assert(rows@.subrange(0, u as int) =~= rows@);
            assert(as_ints(idx@.subrange(0, t + 1)).drop_last() =~= as_ints(idx@.subrange(0, t as int)));
            assert(rows_view(out@) =~= renumbered(concat_rows(es@, as_ints(idx@.subrange(0, t + 1))), edge_id as int));
        }
        t = t + 1;
    }
    proof {
        assert(idx@.subrange(0, t as int) =~= idx@);
    }
    out
}

/// Sorts rows by departure, then arrival, keeping the order of rows equal in both.
fn sort_rows(rows: &Vec<ScheduleRow>) -> (r: Vec<ScheduleRow>)
    ensures
        rows_view(r@) == sorted_rows(rows_view(rows@)),
{
    let n = rows.len();
    let mut keys: Vec<(i128, i128, usize)> = Vec::new();
    let mut i: usize = 0;
    while i < n
        invariant
            n == rows@.len(),
            i <= n,
            keys@ == row_keys(rows_view(rows@)).subrange(0, i as int),
        decreases n - i,
    {
        keys.push((rows[i].src_departure_time.nanos, rows[i].dst_arrival_time.nanos, i));
        proof {
            assert(keys@ =~= row_keys(rows_view(rows@)).subrange(0, i + 1));
        }
        i = i + 1;
    }
    let ghost before = keys@;
    proof {
        assert(before =~= row_keys(rows_view(rows@)));
    }
    sort_triples(&mut keys);
    proof {
        lemma_sorted_is_sort_by(before, keys@);
        assert forall|t: int| 0 <= t < keys@.len() implies (#[trigger] keys@[t]).2 < n by {
            assert(keys@.contains(keys@[t]));
            assert(keys@.to_multiset().count(keys@[t]) > 0);
            assert(before.to_multiset().count(keys@[t]) > 0);
            assert(before.contains(keys@[t]));
        }
    }
    let mut out: Vec<ScheduleRow> = Vec::new();
    let mut t: usize = 0;
    while t < keys.len()
        invariant
            n == rows@.len(),
            t <= keys@.len(),
            forall|u: int| 0 <= u < keys@.len() ==> (#[trigger] keys@[u]).2 < n,
            rows_view(out@) == keys@.subrange(0, t as int).map_values(
                |x: (i128, i128, usize)| rows_view(rows@)[x.2 as int],
            ),
        decreases keys@.len() - t,
    {
        let p = keys[t].2;
        let ghost prev = out@;
        let c = copy_row(&rows[p], rows[p].edge_id);
        out.push(c);
        proof {
            assert(rows_view(out@) =~= rows_view(prev).push(row_view(c)));
            assert(row_view(c) == rows_view(rows@)[p as int]);
            assert(keys@.subrange(0, t + 1) =~= keys@.subrange(0, t as int).push(keys@[t as int]));
            assert(rows_view(out@) =~= keys@.subrange(0, t + 1).map_values(
                |x: (i128, i128, usize)| rows_view(rows@)[x.2 as int],
            ));
        }
        t = t + 1;
    }
    proof {
        assert(keys@.subrange(0, t as int) =~= keys@);
    }
    out
}

/// An edge of the consolidated list at position `j`: it is renumbered `j`, keeps the
/// length and geometry of the first input edge joining its pair, and carries the rows
/// of all input edges joining its pair, moved onto it and sorted.
pub open spec fn consolidated_edge(es: Seq<GtfsEdge>, e: GtfsEdge, j: int) -> bool {
    let k = edge_key(e);
    let f = es[members_of(es, k, es.len() as int)[0]];
    &&& e.edge.edge_id == j
    &&& e.edge.distance_bits == f.edge.distance_bits
    &&& e.geometry@ == f.geometry@
    &&& rows_view(e.schedules@) == sorted_rows(renumbered(group_rows(es, k), j))
}

/// A consolidation of a list of edges: one edge per pair of vertices joined, in
/// ascending order of the pair, each as [`consolidated_edge`] says.
pub open spec fn consolidated(es: Seq<GtfsEdge>, out: Seq<GtfsEdge>) -> bool {
    &&& forall|i: int, j: int|
        0 <= i < j < out.len() ==> key_lt(edge_key(#[trigger] out[i]), edge_key(#[trigger] out[j]))
    &&& forall|k: (int, int)| #[trigger] has_key(es, k) <==> has_key(out, k)
    &&& forall|j: int| 0 <= j < out.len() ==> consolidated_edge(es, #[trigger] out[j], j)
}

/// Combines the edges joining the same pair of vertices, orders the edges by their
/// pair, and numbers them densely from 0, as [`consolidated`] says.
pub fn consolidate_edges(es: &Vec<GtfsEdge>) -> (r: Vec<GtfsEdge>)
    ensures
        consolidated(es@, r@),
{
    let (keys, members) = group_edges(es);
    let n_groups = keys.len();
    let mut order: Vec<(i128, i128, usize)> = Vec::new();
    let mut g: usize = 0;
    while g < n_groups
        invariant
            n_groups == keys@.len(),
            g <= n_groups,
            order@ == Seq::new(g as nat, |h: int| (keys@[h].0 as i128, keys@[h].1 as i128, h as usize)),
        decreases n_groups - g,
    {
        order.push((keys[g].0 as i128, keys[g].1 as i128, g));
        proof {
            assert(order@ =~= Seq::new((g + 1) as nat, |h: int| (keys@[h].0 as i128, keys@[h].1 as i128, h as usize)));
        }
        g = g + 1;
    }
    let ghost before = order@;
    proof {
        assert(before.no_duplicates()) by {
            assert forall|a: int, b: int| 0 <= a < before.len() && 0 <= b < before.len() && a != b
                implies before[a] != before[b] by {
                assert(before[a].2 == a && before[b].2 == b);
            }
        }
        before.lemma_multiset_has_no_duplicates();
    }
    sort_triples(&mut order);
    proof {
        assert forall|x: (i128, i128, usize)| order@.to_multiset().contains(x) implies order@.to_multiset().count(x) == 1 by {
            assert(before.to_multiset().contains(x));
        }
        order@.lemma_multiset_has_no_duplicates_conv();
        assert forall|t: int| 0 <= t < order@.len() implies (#[trigger] order@[t]).2 < n_groups
            && order@[t] == before[order@[t].2 as int] by {
            assert(order@.contains(order@[t]));
            assert(order@.to_multiset().count(order@[t]) > 0);
            assert(before.to_multiset().count(order@[t]) > 0);
            assert(before.contains(order@[t]));
        }
    }
    let mut out: Vec<GtfsEdge> = Vec::new();
    let mut j: usize = 0;
    while j < order.len()
        invariant
            n_groups == keys@.len(),
            keys@.len() == members@.len(),
            j <= order@.len(),
            sorted_by(order@, triple_order()),
            order@.no_duplicates(),
            forall|t: int| 0 <= t < order@.len() ==> (#[trigger] order@[t]).2 < n_groups
                && order@[t] == before[order@[t].2 as int],
            before == Seq::new(n_groups as nat, |h: int| (keys@[h].0 as i128, keys@[h].1 as i128, h as usize)),
            forall|h: int|
                0 <= h < keys@.len() ==> as_ints(#[trigger] members@[h]@) == members_of(
                    es@,
                    pair_of(keys@[h]),
                    es@.len() as int,
                ),
            forall|h: int| 0 <= h < keys@.len() ==> (#[trigger] members@[h])@.len() > 0,
            out@.len() == j,
            forall|t: int| 0 <= t < j ==> edge_key(#[trigger] out@[t]) == pair_of(keys@[order@[t].2 as int]),
            forall|t: int| 0 <= t < j ==> consolidated_edge(es@, #[trigger] out@[t], t),
        decreases order@.len() - j,
    {
        let g = order[j].2;
        let idx = &members[g];
        proof {
            lemma_members_of_keys(es@, pair_of(keys@[g as int]), es@.len() as int);
            assert forall|t: int| 0 <= t < idx@.len() implies #[trigger] idx@[t] < es@.len() by {
                assert(as_ints(idx@)[t] == members_of(es@, pair_of(keys@[g as int]), es@.len() as int)[t]);
            }
            assert(as_ints(idx@)[0] == idx@[0] as int);
        }
        let first = &es[idx[0]];
        let rows = gather_rows(es, idx, j);
        let schedules = sort_rows(&rows);
        let e = GtfsEdge {
            edge: EdgeConfig {
                edge_id: j,
                src_vertex_id: keys[g].0,
                dst_vertex_id: keys[g].1,
                distance_bits: first.edge.distance_bits,
            },
            geometry: copy_geometry(&first.geometry),
            schedules,
        };
        proof {
            assert(edge_key(e) == pair_of(keys@[g as int]));
            assert(consolidated_edge(es@, e, j as int));
        }
        out.push(e);
        j = j + 1;
    }
    proof {
        lemma_triple_order_total();
        assert forall|a: int, b: int| 0 <= a < b < out@.len() implies key_lt(
            edge_key(#[trigger] out@[a]),
            edge_key(#[trigger] out@[b]),
        ) by {
            assert(triple_order()(order@[a], order@[b]));
            assert(triple_le(order@[a], order@[b]));
            assert(order@[a] != order@[b]);
            let ga = order@[a].2 as int;
            let gb = order@[b].2 as int;
            if ga != gb {
                assert(keys@[ga] != keys@[gb]);
            }
        }
        assert forall|k: (int, int)| #[trigger] has_key(es@, k) <==> has_key(out@, k) by {
            if has_key(es@, k) {
                assert(listed(keys@, k));
                let h = choose|h: int| 0 <= h < keys@.len() && #[trigger] pair_of(keys@[h]) == k;
                assert(before.contains(before[h]));
                assert(before.to_multiset().count(before[h]) > 0);
                assert(order@.to_multiset().count(before[h]) > 0);
                assert(order@.contains(before[h]));
                let t = choose|t: int| 0 <= t < order@.len() && order@[t] == before[h];
                assert(edge_key(out@[t]) == k);
            }
            if has_key(out@, k) {
                let t = choose|t: int| 0 <= t < out@.len() && #[trigger] edge_key(out@[t]) == k;
                assert(pair_of(keys@[order@[t].2 as int]) == k);
                assert(listed(keys@, k));
            }
        }
    }
    out
}

/// A date mapping as plain values.
pub struct MappingView {
    pub feed_id: Option<Seq<char>>,
    pub agency_id: Option<Seq<char>>,
    pub route_id: Seq<char>,
    pub service_id: Seq<char>,
    pub target_days: int,
    pub picked_days: int,
}

pub open spec fn mapping_view(m: DateMapping) -> MappingView {
    MappingView {
        feed_id: opt_string_view(m.feed_id),
        agency_id: opt_string_view(m.agency_id),
        route_id: m.route_id@,
        service_id: m.service_id@,
        target_days: m.target_date.days as int,
        picked_days: m.picked_date.days as int,
    }
}

pub open spec fn mapping_views(v: Seq<DateMapping>) -> Seq<MappingView> {
    v.map_values(|m: DateMapping| mapping_view(m))
}

/// The set of date mappings a list holds.
pub open spec fn mapping_set(v: Seq<DateMapping>) -> Set<MappingView> {
    mapping_views(v).to_set()
}

fn opt_string_eq(a: &Option<String>, b: &Option<String>) -> (r: bool)
    ensures
        r == (opt_string_view(*a) == opt_string_view(*b)),
{
    match (a, b) {
        (Some(x), Some(y)) => str_eq(x.as_str(), y.as_str()),
        (None, None) => true,
        _ => false,
    }
}

fn mapping_eq(a: &DateMapping, b: &DateMapping) -> (r: bool)
    ensures
        r == (mapping_view(*a) == mapping_view(*b)),
{
    opt_string_eq(&a.feed_id, &b.feed_id) && opt_string_eq(&a.agency_id, &b.agency_id) && str_eq(
        a.route_id.as_str(),
        b.route_id.as_str(),
    ) && str_eq(a.service_id.as_str(), b.service_id.as_str()) && a.target_date.days
        == b.target_date.days && a.picked_date.days == b.picked_date.days
}

/// Whether a list holds a date mapping.
pub(crate) fn holds_mapping(v: &Vec<DateMapping>, m: &DateMapping) -> (r: bool)
    ensures
        r == mapping_set(v@).contains(mapping_view(*m)),
{
    let mut i: usize = 0;
    while i < v.len()
        invariant
            i <= v@.len(),
            forall|j: int| 0 <= j < i ==> mapping_view(#[trigger] v@[j]) != mapping_view(*m),
        decreases v@.len() - i,
    {
        if mapping_eq(&v[i], m) {
            proof {
                assert(mapping_views(v@)[i as int] == mapping_view(*m));
            }
            return true;
        }
        i = i + 1;
    }
    proof {
        if mapping_set(v@).contains(mapping_view(*m)) {
            let j = choose|j: int|
                0 <= j < v@.len() && #[trigger] mapping_views(v@)[j]
                    == mapping_view(*m);
            assert(mapping_view(v@[j]) != mapping_view(*m));
        }
    }
    false
}

/// The result of processing GTFS archives: the transit edges of the graph, the
/// metadata of the archives, and the date mappings applied to their schedules.
#[derive(Debug)]
pub struct GtfsBundle {
    pub edges: Vec<GtfsEdge>,
    pub metadata: Metadata,
    /// a set: no two entries are equal
    pub date_mapping: Vec<DateMapping>,
}

impl GtfsBundle {
    /// No date mapping occurs twice.
    pub open spec fn wf(&self) -> bool {
        mapping_views(self.date_mapping@).no_duplicates()
    }

    /// A bundle with no edges, null metadata and no date mappings.
    pub fn empty() -> (r: GtfsBundle)
        ensures
            r.wf(),
            r.edges@.len() == 0,
            r.metadata is Null,
            r.date_mapping@.len() == 0,
    {
        GtfsBundle { edges: Vec::new(), metadata: Metadata::Null, date_mapping: Vec::new() }
    }

    /// True when no edge carries a schedule row.
    pub fn is_empty(&self) -> (r: bool)
        ensures
            r == forall|i: int| 0 <= i < self.edges@.len() ==> (#[trigger] self.edges@[i]).schedules@.len() == 0,
    {
        let mut i: usize = 0;
        while i < self.edges.len()
            invariant
                i <= self.edges@.len(),
                forall|j: int| 0 <= j < i ==> (#[trigger] self.edges@[j]).schedules@.len() == 0,
            decreases self.edges@.len() - i,
        {
            if self.edges[i].schedules.len() > 0 {
                return false;
            }
            i = i + 1;
        }
        true
    }

    /// Accumulates the edges of another bundle after this one's, merges its metadata
    /// into this one's, and takes the union of the date mappings. Edge ids are not
    /// renumbered.
    pub fn extend(&mut self, rhs: GtfsBundle)
        requires
            old(self).wf(),
            merge_ok(old(self).metadata, rhs.metadata),
        ensures
            final(self).wf(),
            final(self).edges@ == old(self).edges@ + rhs.edges@,
            metadata_view(final(self).metadata) == merged_metadata(old(self).metadata, rhs.metadata),
            mapping_set(final(self).date_mapping@) == mapping_set(old(self).date_mapping@).union(
                mapping_set(rhs.date_mapping@),
            ),
    {
        let GtfsBundle { edges: mut rhs_edges, metadata: rhs_metadata, date_mapping: mut rhs_mappings } = rhs;
        self.edges.append(&mut rhs_edges);
        merge_metadata(&mut self.metadata, &rhs_metadata);
        let ghost start = self.date_mapping@;
        let ghost incoming = rhs_mappings@;
        let ghost edges_after = self.edges@;
        let ghost metadata_after = self.metadata;
        while rhs_mappings.len() > 0
            invariant
                self.edges@ == edges_after,
                self.metadata == metadata_after,
                mapping_views(self.date_mapping@).no_duplicates(),
                rhs_mappings@.len() <= incoming.len(),
                rhs_mappings@ == incoming.subrange(0, rhs_mappings@.len() as int),
                mapping_set(self.date_mapping@) == mapping_set(start).union(
                    mapping_set(incoming.subrange(rhs_mappings@.len() as int, incoming.len() as int)),
                ),
            decreases rhs_mappings@.len(),
        {
            let ghost n = rhs_mappings@.len();
            let m = rhs_mappings.pop().unwrap();
            let ghost before = self.date_mapping@;
            proof {
                assert(rhs_mappings@ =~= incoming.subrange(0, n - 1));
                assert(incoming.subrange(n - 1, incoming.len() as int) =~= seq![m] + incoming.subrange(
                    n as int,
                    incoming.len() as int,
                ));
                assert(mapping_set(incoming.subrange(n - 1, incoming.len() as int)) =~= mapping_set(
                    incoming.subrange(n as int, incoming.len() as int),
                ).insert(mapping_view(m))) by {
                    let tail = incoming.subrange(n as int, incoming.len() as int);
                    let whole = incoming.subrange(n - 1, incoming.len() as int);
                    assert forall|x: MappingView| mapping_set(whole).contains(x) implies mapping_set(
                        tail,
                    ).insert(mapping_view(m)).contains(x) by {
                        let j = choose|j: int|
                            0 <= j < whole.len() && #[trigger] mapping_views(whole)[j] == x;
                        if j > 0 {
                            assert(mapping_views(tail)[j - 1] == x);
                        }
                    }
                    assert forall|x: MappingView| mapping_set(tail).insert(mapping_view(m)).contains(
                        x,
                    ) implies mapping_set(whole).contains(x) by {
                        if x == mapping_view(m) {
                            assert(mapping_views(whole)[0] == x);
                        } else {
                            let j = choose|j: int|
                                0 <= j < tail.len() && #[trigger] mapping_views(tail)[j] == x;
                            assert(mapping_views(whole)[j + 1] == x);
                        }
                    }
                }
            }
            if !holds_mapping(&self.date_mapping, &m) {
                self.date_mapping.push(m);
                proof {
                    let vb = mapping_views(before);
                    let va = mapping_views(self.date_mapping@);
                    assert(va =~= vb.push(mapping_view(m)));
                    assert(!vb.contains(mapping_view(m)));
                    assert forall|y: MappingView| va.contains(y) <==> (vb.contains(y) || y == mapping_view(m)) by {
                        if va.contains(y) {
                            let j = choose|j: int| 0 <= j < va.len() && va[j] == y;
                            if j < vb.len() {
                                assert(vb[j] == y);
                            }
                        }
                        if vb.contains(y) {
                            let j = choose|j: int| 0 <= j < vb.len() && vb[j] == y;
                            assert(va[j] == y);
                        }
                        if y == mapping_view(m) {
                            assert(va[vb.len() as int] == y);
                        }
                    }
                    assert(mapping_set(self.date_mapping@) =~= mapping_set(before).insert(mapping_view(m)));
                }
            }
        }
        proof {
            assert(incoming.subrange(0, incoming.len() as int) =~= incoming);
        }
    }
}

/// The edges of several bundles, in order.
pub open spec fn all_edges(bs: Seq<GtfsBundle>) -> Seq<GtfsEdge>
    decreases bs.len(),
{
    if bs.len() == 0 {
        Seq::empty()
    } else {
        all_edges(bs.drop_last()) + bs.last().edges@
    }
}

/// The metadata of several bundles merged in order into null metadata.
pub open spec fn all_metadata(bs: Seq<GtfsBundle>) -> MetadataView
    decreases bs.len(),
{
    if bs.len() == 0 {
        MetadataView::Null
    } else {
        merged_view(all_metadata(bs.drop_last()), metadata_view(bs.last().metadata))
    }
}

/// Each of the first `n` bundles' metadata can be merged into that of the bundles
/// before it.
pub open spec fn prefix_merge_ok(bs: Seq<GtfsBundle>, n: int) -> bool {
    forall|i: int|
        0 <= i < n ==> merge_view_ok(all_metadata(bs.take(i)), metadata_view(#[trigger] bs[i].metadata))
}

/// Each bundle's metadata can be merged into that of the bundles before it.
pub open spec fn all_merge_ok(bs: Seq<GtfsBundle>) -> bool {
    prefix_merge_ok(bs, bs.len() as int)
}

proof fn lemma_prefix_merge_ok_step(bs: Seq<GtfsBundle>, i: int)
    requires
        0 <= i < bs.len(),
        prefix_merge_ok(bs, i),
        merge_view_ok(all_metadata(bs.take(i)), metadata_view(bs[i].metadata)),
    ensures
        prefix_merge_ok(bs, i + 1),
{
    assert forall|j: int| 0 <= j < i + 1 implies merge_view_ok(
        all_metadata(bs.take(j)),
        metadata_view(#[trigger] bs[j].metadata),
    ) by {
        if j < i {
            assert(merge_view_ok(all_metadata(bs.take(j)), metadata_view(bs[j].metadata)));
        }
    }
}

proof fn lemma_all_metadata_step(bs: Seq<GtfsBundle>, i: int)
    requires
        0 <= i < bs.len(),
    ensures
        all_metadata(bs.take(i + 1)) == merged_view(all_metadata(bs.take(i)), metadata_view(bs[i].metadata)),
        all_edges(bs.take(i + 1)) == all_edges(bs.take(i)) + bs[i].edges@,
        all_mappings(bs.take(i + 1)) == all_mappings(bs.take(i)).union(mapping_set(bs[i].date_mapping@)),
{
    assert(bs.take(i + 1).drop_last() =~= bs.take(i));
}

/// The date mappings of several bundles.
pub open spec fn all_mappings(bs: Seq<GtfsBundle>) -> Set<MappingView>
    decreases bs.len(),
{
    if bs.len() == 0 {
        Set::empty()
    } else {
        all_mappings(bs.drop_last()).union(mapping_set(bs.last().date_mapping@))
    }
}

impl GtfsBundle {
    /// Combines the edges joining the same pair of vertices, orders the edges by their
    /// pair, and numbers them densely from 0, moving their schedule rows along, as
    /// [`consolidated`] says.
    pub fn consolidate_and_renumber(&mut self)
        ensures
            consolidated(old(self).edges@, final(self).edges@),
            final(self).metadata == old(self).metadata,
            final(self).date_mapping == old(self).date_mapping,
    {
        if self.edges.len() == 0 {
            return;
        }
        let edges = consolidate_edges(&self.edges);
        self.edges = edges;
    }

    /// Merges bundles in order into one with consolidated edges and dense edge ids.
    #[verifier::rlimit(40)]
    #[verifier::spinoff_prover]
    pub fn merge_all(bundles: Vec<GtfsBundle>) -> (r: GtfsBundle)
        requires
            all_merge_ok(bundles@),
        ensures
            r.wf(),
            consolidated(all_edges(bundles@), r.edges@),
            metadata_view(r.metadata) == all_metadata(bundles@),
            mapping_set(r.date_mapping@) == all_mappings(bundles@),
    {
        let ghost bs = bundles@;
        let mut rest = bundles;
        let mut reversed: Vec<GtfsBundle> = Vec::new();
        while rest.len() > 0
            invariant
                rest@.len() + reversed@.len() == bs.len(),
                rest@ == bs.take(rest@.len() as int),
                forall|t: int| 0 <= t < reversed@.len() ==> #[trigger] reversed@[t] == bs[bs.len() - 1 - t],
            decreases rest@.len(),
        {
            let b = rest.pop().unwrap();
            reversed.push(b);
            proof {
                assert(rest@ =~= bs.take(rest@.len() as int));
            }
        }
        let mut merged = GtfsBundle::empty();
        proof {
            assert(bs.take(0) =~= Seq::<GtfsBundle>::empty());
            assert(mapping_set(merged.date_mapping@) =~= Set::empty());
        }
        while reversed.len() > 0
            invariant
                all_merge_ok(bs),
                reversed@.len() <= bs.len(),
                forall|t: int| 0 <= t < reversed@.len() ==> #[trigger] reversed@[t] == bs[bs.len() - 1 - t],
                merged.wf(),
                merged.edges@ == all_edges(bs.take(bs.len() - reversed@.len())),
                metadata_view(merged.metadata) == all_metadata(bs.take(bs.len() - reversed@.len())),
                mapping_set(merged.date_mapping@) == all_mappings(bs.take(bs.len() - reversed@.len())),
            decreases reversed@.len(),
        {
            let ghost i = bs.len() - reversed@.len();
            let b = reversed.pop().unwrap();
            proof {
                assert(b == bs[i]);
                assert(merge_view_ok(all_metadata(bs.take(i)), metadata_view(bs[i].metadata)));
                lemma_all_metadata_step(bs, i);
            }
            merged.extend(b);
        }
        proof {
            assert(bs.take(bs.len() as int) =~= bs);
            assert(merged.edges@ == all_edges(bs));
        }
        let ghost gathered = merged.edges@;
        merged.consolidate_and_renumber();
        proof {
            assert(consolidated(gathered, merged.edges@));
        }
        merged
    }

    /// Whether [`GtfsBundle::merge_all`] is owed on these bundles: each one's read
    /// duration can be added to those of the bundles before it.
    pub fn merge_all_fits(bundles: &Vec<GtfsBundle>) -> (r: bool)
        ensures
            r == all_merge_ok(bundles@),
    {
        let mut merged = Metadata::Null;
        let mut i: usize = 0;
        while i < bundles.len()
            invariant
                i <= bundles@.len(),
                metadata_view(merged) == all_metadata(bundles@.take(i as int)),
                prefix_merge_ok(bundles@, i as int),
            decreases bundles@.len() - i,
        {
            if !merge_fits(&merged, &bundles[i].metadata) {
                return false;
            }
            merge_metadata(&mut merged, &bundles[i].metadata);
            proof {
                lemma_all_metadata_step(bundles@, i as int);
                lemma_prefix_merge_ok_step(bundles@, i as int);
            }
            i = i + 1;
        }
        true
    }
}

impl Default for GtfsBundle {
    fn default() -> (r: GtfsBundle)
        ensures
            r.wf(),
            r.edges@.len() == 0,
            r.metadata is Null,
            r.date_mapping@.len() == 0,
    {
        GtfsBundle::empty()
    }
}

/// The rows sorted by [`sorted_rows`] are rows of the list.
proof fn lemma_sorted_rows_elements(rows: Seq<RowView>)
    requires
        rows.len() <= usize::MAX,
    ensures
        sorted_rows(rows).len() == rows.len(),
        forall|t: int|
            0 <= t < rows.len() ==> 0 <= (#[trigger] row_keys(rows).sort_by(triple_order())[t]).2 < rows.len(),
{
    let keys = row_keys(rows);
    lemma_triple_order_total();
    keys.lemma_sort_by_ensures(triple_order());
    let sorted = keys.sort_by(triple_order());
    assert(sorted.len() == keys.len()) by {
        assert(sorted.to_multiset().len() == keys.to_multiset().len());
    }
    assert forall|t: int| 0 <= t < rows.len() implies 0 <= (#[trigger] sorted[t]).2 < rows.len() by {
        assert(sorted.contains(sorted[t]));
        assert(sorted.to_multiset().count(sorted[t]) > 0);
        assert(keys.to_multiset().count(sorted[t]) > 0);
        assert(keys.contains(sorted[t]));
        let i = choose|i: int| 0 <= i < keys.len() && keys[i] == sorted[t];
    }
}

/// After consolidation, the edges are numbered 0, 1, ... in order, and every schedule
/// row names the edge it lies on.
pub proof fn lemma_consolidated_ids_dense(es: Seq<GtfsEdge>, out: Seq<GtfsEdge>)
    requires
        consolidated(es, out),
        forall|j: int| 0 <= j < out.len() ==> (#[trigger] out[j]).schedules@.len() <= usize::MAX,
    ensures
        forall|j: int| 0 <= j < out.len() ==> (#[trigger] out[j]).edge.edge_id == j,
        forall|j: int, t: int|
            0 <= j < out.len() && 0 <= t < out[j].schedules@.len() ==> (#[trigger] out[j].schedules@[t]).edge_id
                == j,
{
    assert forall|j: int, t: int|
        0 <= j < out.len() && 0 <= t < out[j].schedules@.len() implies (#[trigger] out[j].schedules@[t]).edge_id
        == j by {
        assert(consolidated_edge(es, out[j], j));
        let x = renumbered(group_rows(es, edge_key(out[j])), j);
        assert(rows_view(out[j].schedules@) == sorted_rows(x));
        let k = row_keys(x);
        lemma_triple_order_total();
        k.lemma_sort_by_ensures(triple_order());
        assert(k.sort_by(triple_order()).to_multiset().len() == k.to_multiset().len());
        assert(k.sort_by(triple_order()).len() == k.len());
        assert(sorted_rows(x).len() == x.len());
        assert(rows_view(out[j].schedules@).len() == out[j].schedules@.len());
        assert(x.len() == out[j].schedules@.len());
        lemma_sorted_rows_elements(x);
        assert(rows_view(out[j].schedules@)[t] == row_view(out[j].schedules@[t]));
        let p = k.sort_by(triple_order())[t].2 as int;
        assert(sorted_rows(x)[t] == x[p]);
    }
}

/// A row of an edge joining the pair `k` is among the rows the pair's edges carry.
proof fn lemma_member_rows(es: Seq<GtfsEdge>, k: (int, int), n: int, i: int, t: int)
    requires
        0 <= i < n <= es.len(),
        edge_key(es[i]) == k,
        0 <= t < es[i].schedules@.len(),
    ensures
        exists|p: int|
            0 <= p < concat_rows(es, members_of(es, k, n)).len() && #[trigger] concat_rows(
                es,
                members_of(es, k, n),
            )[p] == row_view(es[i].schedules@[t]),
    decreases n,
{
    let m = members_of(es, k, n);
    let prev = members_of(es, k, n - 1);
    if edge_key(es[n - 1]) == k {
        assert(m == prev + seq![n - 1]);
        assert(m.drop_last() =~= prev);
        assert(concat_rows(es, m) == concat_rows(es, prev) + rows_view(es[n - 1].schedules@));
        if i == n - 1 {
            let p = concat_rows(es, prev).len() + t;
            assert(concat_rows(es, m)[p] == rows_view(es[i].schedules@)[t]);
        } else {
            lemma_member_rows(es, k, n - 1, i, t);
            let p = choose|p: int|
                0 <= p < concat_rows(es, prev).len() && #[trigger] concat_rows(es, prev)[p] == row_view(
                    es[i].schedules@[t],
                );
            assert(concat_rows(es, m)[p] == concat_rows(es, prev)[p]);
        }
    } else {
        assert(m =~= prev);
        lemma_member_rows(es, k, n - 1, i, t);
    }
}

/// Sorting rows keeps each of them.
proof fn lemma_sorted_rows_keep(rows: Seq<RowView>, p: int)
    requires
        rows.len() <= usize::MAX,
        0 <= p < rows.len(),
    ensures
        exists|u: int| 0 <= u < rows.len() && #[trigger] sorted_rows(rows)[u] == rows[p],
{
    let keys = row_keys(rows);
    lemma_triple_order_total();
    keys.lemma_sort_by_ensures(triple_order());
    let sorted = keys.sort_by(triple_order());
    lemma_sorted_rows_elements(rows);
    assert(keys.contains(keys[p]));
    assert(keys.to_multiset().count(keys[p]) > 0);
    assert(sorted.to_multiset().count(keys[p]) > 0);
    assert(sorted.contains(keys[p]));
    let u = choose|u: int| 0 <= u < sorted.len() && sorted[u] == keys[p];
    assert(sorted_rows(rows)[u] == rows[p]);
}

/// Consolidation keeps every schedule row: each row of an input edge lies, moved onto
/// it, on the output edge joining the same pair of vertices.
pub proof fn lemma_consolidation_keeps_rows(es: Seq<GtfsEdge>, out: Seq<GtfsEdge>, i: int, t: int)
    requires
        consolidated(es, out),
        forall|j: int| 0 <= j < out.len() ==> (#[trigger] out[j]).schedules@.len() <= usize::MAX,
        0 <= i < es.len(),
        0 <= t < es[i].schedules@.len(),
    ensures
        exists|j: int, u: int|
            0 <= j < out.len() && 0 <= u < out[j].schedules@.len() && edge_key(out[j]) == edge_key(es[i])
                && #[trigger] row_view(out[j].schedules@[u]) == with_edge_id(row_view(es[i].schedules@[t]), j),
{
    let k = edge_key(es[i]);
    assert(has_key(es, k));
    assert(has_key(out, k));
    let j = choose|j: int| 0 <= j < out.len() && #[trigger] edge_key(out[j]) == k;
    assert(consolidated_edge(es, out[j], j));
    lemma_member_rows(es, k, es.len() as int, i, t);
    let g = group_rows(es, k);
    let p = choose|p: int| 0 <= p < g.len() && #[trigger] g[p] == row_view(es[i].schedules@[t]);
    let x = renumbered(g, j);
    assert(x[p] == with_edge_id(row_view(es[i].schedules@[t]), j));
    let kk = row_keys(x);
    lemma_triple_order_total();
    kk.lemma_sort_by_ensures(triple_order());
    assert(kk.sort_by(triple_order()).to_multiset().len() == kk.to_multiset().len());
    assert(kk.sort_by(triple_order()).len() == kk.len());
    assert(sorted_rows(x).len() == x.len());
    assert(rows_view(out[j].schedules@).len() == out[j].schedules@.len());
    lemma_sorted_rows_elements(x);
    lemma_sorted_rows_keep(x, p);
    let u = choose|u: int| 0 <= u < x.len() && #[trigger] sorted_rows(x)[u] == x[p];
    assert(rows_view(out[j].schedules@)[u] == row_view(out[j].schedules@[u]));
}

} // verus!
