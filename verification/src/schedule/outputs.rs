//! What is written beside a bundle's edges: the sorted list of fully-qualified route ids
//! its schedules use, and its date mappings grouped by fully-qualified route id.
use vstd::prelude::*;

use crate::schedule::bundle::{GtfsBundle, GtfsEdge};
use crate::schedule::rows::{DateMapping, ScheduleRow};
use crate::text::chars_of;
use crate::schedule::fq_ops::{get_fully_qualified_route_id, opt_as_str};
use crate::temporal::Date;

verus! {

/// The lexicographic order of texts, by characters (the order of Rust's `String`,
/// whose UTF-8 bytes order as their characters do).
pub open spec fn text_lt(a: Seq<char>, b: Seq<char>) -> bool
    decreases a.len(),
{
    if a.len() == 0 {
        b.len() > 0
    } else if b.len() == 0 {
        false
    } else if a[0] != b[0] {
        (a[0] as int) < (b[0] as int)
    } else {
        text_lt(a.drop_first(), b.drop_first())
    }
}

/// The order of texts is strict and total.
pub proof fn lemma_text_lt_total(a: Seq<char>, b: Seq<char>)
    ensures
        !text_lt(a, a),
        a == b || text_lt(a, b) || text_lt(b, a),
        !(text_lt(a, b) && text_lt(b, a)),
    decreases a.len(),
{
    if a.len() > 0 && b.len() > 0 {
        lemma_text_lt_total(a.drop_first(), b.drop_first());
        lemma_text_lt_total(a.drop_first(), a.drop_first());
        if a[0] == b[0] && a.drop_first() == b.drop_first() {
            assert(a =~= seq![a[0]] + a.drop_first());
            assert(b =~= seq![b[0]] + b.drop_first());
        }
    } else if a.len() > 0 {
        lemma_text_lt_total(a.drop_first(), a.drop_first());
    } else if b.len() == 0 {
        assert(a =~= b);
    }
}

/// The order of texts is transitive.
pub proof fn lemma_text_lt_trans(a: Seq<char>, b: Seq<char>, c: Seq<char>)
    requires
        text_lt(a, b),
        text_lt(b, c),
    ensures
        text_lt(a, c),
    decreases a.len(),
{
    if a.len() > 0 && b.len() > 0 && c.len() > 0 && a[0] == b[0] && b[0] == c[0] {
        lemma_text_lt_trans(a.drop_first(), b.drop_first(), c.drop_first());
    }
}

/// Compares two texts: negative, zero or positive as the first is before, equal to or
/// after the second.
pub fn compare_text(a: &str, b: &str) -> (r: i8)
    ensures
        r < 0 <==> text_lt(a@, b@),
        r == 0 <==> a@ == b@,
        r > 0 <==> text_lt(b@, a@),
{
    let x = chars_of(a);
    let y = chars_of(b);
    proof {
        lemma_text_lt_total(a@, b@);
    }
    proof {
        assert(a@.skip(0) =~= a@);
        assert(b@.skip(0) =~= b@);
    }
    let mut i: usize = 0;
    while i < x.len() && i < y.len()
        invariant
            i <= x@.len(),
            i <= y@.len(),
            x@ == a@,
            y@ == b@,
            x@.take(i as int) == y@.take(i as int),
            text_lt(a@, b@) == text_lt(a@.skip(i as int), b@.skip(i as int)),
            text_lt(b@, a@) == text_lt(b@.skip(i as int), a@.skip(i as int)),
        decreases x@.len() - i,
    {
        proof {
            assert(a@.skip(i as int).drop_first() =~= a@.skip(i + 1));
            assert(b@.skip(i as int).drop_first() =~= b@.skip(i + 1));
        }
        proof {
            assert(a@.skip(i as int)[0] == x@[i as int]);
            assert(b@.skip(i as int)[0] == y@[i as int]);
        }
        if x[i] != y[i] {
            if x[i] < y[i] {
                return -1;
            } else {
                return 1;
            }
        }
        proof {
            assert(x@.take(i + 1) =~= x@.take(i as int).push(x@[i as int]));
            assert(y@.take(i + 1) =~= y@.take(i as int).push(y@[i as int]));
        }
        i = i + 1;
    }
    proof {
        assert(a@.skip(i as int).len() == 0 || b@.skip(i as int).len() == 0);
    }
    if x.len() == y.len() {
        proof {
            assert(x@ =~= x@.take(i as int));
            assert(y@ =~= y@.take(i as int));
        }
        0
    } else if i == x.len() {
        -1
    } else {
        1
    }
}

/// The texts are in strictly ascending order.
pub open spec fn strictly_sorted(v: Seq<String>) -> bool {
    forall|i: int, j: int| 0 <= i < j < v.len() ==> text_lt(#[trigger] v[i]@, #[trigger] v[j]@)
}

/// The texts a list holds.
pub open spec fn text_set(v: Seq<String>) -> Set<Seq<char>> {
    Set::new(|t: Seq<char>| exists|i: int| 0 <= i < v.len() && #[trigger] v[i]@ == t)
}

/// Adds a text to a strictly sorted list unless it is there already.
pub(crate) fn insert_sorted(v: &mut Vec<String>, s: String) -> (p: usize)
    requires
        strictly_sorted(old(v)@),
    ensures
        strictly_sorted(final(v)@),
        text_set(final(v)@) == text_set(old(v)@).insert(s@),
        p < final(v)@.len(),
        p <= old(v)@.len(),
        final(v)@[p as int]@ == s@,
        text_set(old(v)@).contains(s@) ==> final(v)@ == old(v)@,
        !text_set(old(v)@).contains(s@) ==> final(v)@ == old(v)@.insert(p as int, s),
{
    let mut i: usize = 0;
    while i < v.len()
        invariant
            i <= v@.len(),
            v@ == old(v)@,
            strictly_sorted(v@),
            forall|t: int| 0 <= t < i ==> text_lt(#[trigger] v@[t]@, s@),
        ensures
            i <= v@.len(),
            v@ == old(v)@,
            strictly_sorted(v@),
            forall|t: int| 0 <= t < i ==> text_lt(#[trigger] v@[t]@, s@),
            i < v@.len() ==> text_lt(s@, v@[i as int]@),
        decreases v@.len() - i,
    {
        let c = compare_text(v[i].as_str(), s.as_str());
        if c == 0 {
            proof {
                assert(text_set(v@).contains(s@));
                assert(text_set(v@).insert(s@) =~= text_set(v@));
            }
            return i;
        }
        if c > 0 {
            break;
        }
        i = i + 1;
    }
    proof {
        if i < v@.len() {
            assert(text_lt(s@, v@[i as int]@));
        }
    }
    proof {
        assert forall|t: int| i <= t < v@.len() implies text_lt(s@, #[trigger] v@[t]@) by {
            if t > i {
                lemma_text_lt_trans(s@, v@[i as int]@, v@[t]@);
            }
        }
        assert(!text_set(v@).contains(s@)) by {
            if text_set(v@).contains(s@) {
                let t = choose|t: int| 0 <= t < v@.len() && #[trigger] v@[t]@ == s@;
                lemma_text_lt_total(s@, s@);
            }
        }
    }
    let ghost before = v@;
    v.insert(i, s);
    proof {
        assert forall|a: int, b: int| 0 <= a < b < v@.len() implies text_lt(#[trigger] v@[a]@, #[trigger] v@[b]@) by {
            if b < i {
            } else if a < i && b == i {
            } else if a < i && b > i {
                assert(v@[b] == before[b - 1]);
                lemma_text_lt_trans(v@[a]@, v@[i as int]@, v@[b]@);
            } else if a == i {
                assert(v@[b] == before[b - 1]);
            } else {
                assert(v@[a] == before[a - 1]);
                assert(v@[b] == before[b - 1]);
            }
        }
        assert(text_set(v@) =~= text_set(before).insert(s@)) by {
            assert forall|x: Seq<char>| text_set(v@).contains(x) implies text_set(before).insert(s@).contains(x) by {
                let t = choose|t: int| 0 <= t < v@.len() && #[trigger] v@[t]@ == x;
                if t < i {
                    assert(before[t]@ == x);
                } else if t > i {
                    assert(before[t - 1]@ == x);
                }
            }
            assert forall|x: Seq<char>| text_set(before).insert(s@).contains(x) implies text_set(v@).contains(x) by {
                if x == s@ {
                    assert(v@[i as int]@ == x);
                } else {
                    let t = choose|t: int| 0 <= t < before.len() && #[trigger] before[t]@ == x;
                    if t < i {
                        assert(v@[t]@ == x);
                    } else {
                        assert(v@[t + 1]@ == x);
                    }
                }
            }
        }
    }
    i
}

/// The fully-qualified route ids of the rows of the first edges: all rows of edges
/// before `i`, and the rows before `k` of edge `i`.
pub open spec fn fq_ids_upto(es: Seq<GtfsEdge>, edge_list_id: nat, i: int, k: int) -> Set<Seq<char>> {
    Set::new(
        |t: Seq<char>|
            exists|a: int, b: int|
                ((0 <= a < i && 0 <= b < es[a].schedules@.len()) || (a == i && 0 <= b < k))
                    && #[trigger] es[a].schedules@[b].spec_fq_id(edge_list_id) == t,
    )
}

/// The fully-qualified route ids of all rows of a list of edges.
pub open spec fn fq_ids(es: Seq<GtfsEdge>, edge_list_id: nat) -> Set<Seq<char>> {
    fq_ids_upto(es, edge_list_id, es.len() as int, 0)
}

/// The fully-qualified route id of a row within an edge list.
fn row_fq_id(row: &ScheduleRow, edge_list_id: usize) -> (r: String)
    ensures
        r@ == row.spec_fq_id(edge_list_id as nat),
{
    get_fully_qualified_route_id(
        opt_as_str(&row.feed_id),
        opt_as_str(&row.agency_id),
        row.route_id.as_str(),
        row.service_id.as_str(),
        edge_list_id,
    )
}

/// The distinct fully-qualified route ids of a bundle's schedule rows within an edge
/// list, in ascending order.
pub fn construct_fq_route_id_list(bundle: &GtfsBundle, edge_list_id: usize) -> (r: Vec<String>)
    ensures
        strictly_sorted(r@),
        text_set(r@) == fq_ids(bundle.edges@, edge_list_id as nat),
{
    let es = &bundle.edges;
    let ghost eid = edge_list_id as nat;
    let mut out: Vec<String> = Vec::new();
    proof {
        assert(text_set(out@) =~= fq_ids_upto(es@, eid, 0, 0));
    }
    let mut i: usize = 0;
    while i < es.len()
        invariant
            i <= es@.len(),
            strictly_sorted(out@),
            text_set(out@) == fq_ids_upto(es@, eid, i as int, 0),
            eid == edge_list_id,
        decreases es@.len() - i,
    {
        let rows = &es[i].schedules;
        let mut k: usize = 0;
        while k < rows.len()
            invariant
                i < es@.len(),
                k <= rows@.len(),
                rows@ == es@[i as int].schedules@,
                strictly_sorted(out@),
                text_set(out@) == fq_ids_upto(es@, eid, i as int, k as int),
                eid == edge_list_id,
            decreases rows@.len() - k,
        {
            let id = row_fq_id(&rows[k], edge_list_id);
            let ghost before = out@;
            let _ = insert_sorted(&mut out, id);
            proof {
                assert(fq_ids_upto(es@, eid, i as int, k + 1) =~= fq_ids_upto(es@, eid, i as int, k as int).insert(
                    rows@[k as int].spec_fq_id(eid),
                )) by {
                    assert forall|t: Seq<char>| fq_ids_upto(es@, eid, i as int, k + 1).contains(t) implies fq_ids_upto(
                        es@,
                        eid,
                        i as int,
                        k as int,
                    ).insert(rows@[k as int].spec_fq_id(eid)).contains(t) by {
                        let (a, b) = choose|a: int, b: int|
                            ((0 <= a < i && 0 <= b < es@[a].schedules@.len()) || (a == i && 0 <= b < k + 1))
                                && #[trigger] es@[a].schedules@[b].spec_fq_id(eid) == t;
                        if !(a == i && b == k) {
                            assert(es@[a].schedules@[b].spec_fq_id(eid) == t);
                        }
                    }
                    assert forall|t: Seq<char>| fq_ids_upto(es@, eid, i as int, k as int).insert(
                        rows@[k as int].spec_fq_id(eid),
                    ).contains(t) implies fq_ids_upto(es@, eid, i as int, k + 1).contains(t) by {
                        if t == rows@[k as int].spec_fq_id(eid) {
                            assert(es@[i as int].schedules@[k as int].spec_fq_id(eid) == t);
                        } else {
                            let (a, b) = choose|a: int, b: int|
                                ((0 <= a < i && 0 <= b < es@[a].schedules@.len()) || (a == i && 0 <= b < k))
                                    && #[trigger] es@[a].schedules@[b].spec_fq_id(eid) == t;
                            assert(es@[a].schedules@[b].spec_fq_id(eid) == t);
                        }
                    }
                }
            }
            k = k + 1;
        }
        proof {
            assert(fq_ids_upto(es@, eid, i + 1, 0) =~= fq_ids_upto(es@, eid, i as int, k as int)) by {
                assert forall|t: Seq<char>| fq_ids_upto(es@, eid, i + 1, 0).contains(t) implies fq_ids_upto(
                    es@,
                    eid,
                    i as int,
                    k as int,
                ).contains(t) by {
                    let (a, b) = choose|a: int, b: int|
                        ((0 <= a < i + 1 && 0 <= b < es@[a].schedules@.len()) || (a == i + 1 && 0 <= b < 0))
                            && #[trigger] es@[a].schedules@[b].spec_fq_id(eid) == t;
                    assert(es@[a].schedules@[b].spec_fq_id(eid) == t);
                }
                assert forall|t: Seq<char>| fq_ids_upto(es@, eid, i as int, k as int).contains(t) implies fq_ids_upto(
                    es@,
                    eid,
                    i + 1,
                    0,
                ).contains(t) by {
                    let (a, b) = choose|a: int, b: int|
                        ((0 <= a < i && 0 <= b < es@[a].schedules@.len()) || (a == i && 0 <= b < k))
                            && #[trigger] es@[a].schedules@[b].spec_fq_id(eid) == t;
                    assert(es@[a].schedules@[b].spec_fq_id(eid) == t);
                }
            }
        }
        i = i + 1;
    }
    out
}

/// The (target, picked) date pairs of the mappings with a fully-qualified id, in order.
pub open spec fn group_pairs(dms: Seq<DateMapping>, key: Seq<char>, edge_list_id: nat) -> Seq<(Date, Date)>
    decreases dms.len(),
{
    if dms.len() == 0 {
        Seq::empty()
    } else {
        group_pairs(dms.drop_last(), key, edge_list_id) + if dms.last().spec_fq_id(edge_list_id) == key {
            seq![(dms.last().target_date, dms.last().picked_date)]
        } else {
            Seq::empty()
        }
    }
}

/// The fully-qualified ids of a list of date mappings.
pub open spec fn mapping_fq_ids(dms: Seq<DateMapping>, edge_list_id: nat) -> Set<Seq<char>> {
    Set::new(|t: Seq<char>| exists|i: int| 0 <= i < dms.len() && #[trigger] dms[i].spec_fq_id(edge_list_id) == t)
}

/// Groups date mappings by their fully-qualified route id within an edge list: the ids
/// in ascending order, and for each id the (target, picked) dates of its mappings, in
/// the order of the list.
pub fn construct_fq_date_mapping(dms: &Vec<DateMapping>, edge_list_id: usize) -> (r: (
    Vec<String>,
    Vec<Vec<(Date, Date)>>,
))
    ensures
        strictly_sorted(r.0@),
        text_set(r.0@) == mapping_fq_ids(dms@, edge_list_id as nat),
        r.1@.len() == r.0@.len(),
        forall|g: int| 0 <= g < r.0@.len() ==> (#[trigger] r.1@[g])@ == group_pairs(dms@, r.0@[g]@, edge_list_id as nat),
{
    let ghost eid = edge_list_id as nat;
    let mut keys: Vec<String> = Vec::new();
    let mut groups: Vec<Vec<(Date, Date)>> = Vec::new();
    proof {
        assert(text_set(keys@) =~= mapping_fq_ids(dms@.take(0), eid));
    }
    let mut i: usize = 0;
    while i < dms.len()
        invariant
            i <= dms@.len(),
            eid == edge_list_id,
            strictly_sorted(keys@),
            text_set(keys@) == mapping_fq_ids(dms@.take(i as int), eid),
            groups@.len() == keys@.len(),
            forall|g: int| 0 <= g < keys@.len() ==> (#[trigger] groups@[g])@ == group_pairs(
                dms@.take(i as int),
                keys@[g]@,
                eid,
            ),
        decreases dms@.len() - i,
    {
        let dm = &dms[i];
        let id = get_fully_qualified_route_id(
            opt_as_str(&dm.feed_id),
            opt_as_str(&dm.agency_id),
            dm.route_id.as_str(),
            dm.service_id.as_str(),
            edge_list_id,
        );
        let ghost k = id@;
        let ghost old_keys = keys@;
        let ghost old_groups = groups@;
        let ghost next = dms@.take(i + 1);
        proof {
            assert(next.drop_last() =~= dms@.take(i as int));
            assert(next.last() == dms@[i as int]);
            assert(k == dms@[i as int].spec_fq_id(eid));
        }
        let n_before = keys.len();
        let ghost id_val = id;
        let p = insert_sorted(&mut keys, id);
        let pair = (dm.target_date, dm.picked_date);
        if keys.len() == n_before {
            proof {
                assert(old_keys.len() == keys@.len());
                if !text_set(old_keys).contains(k) {
                    assert(keys@ == old_keys.insert(p as int, keys@[p as int]));
                }
            }
            groups[p].push(pair);
            proof {
                assert forall|g: int| 0 <= g < keys@.len() implies (#[trigger] groups@[g])@ == group_pairs(
                    next,
                    keys@[g]@,
                    eid,
                ) by {
                    if g == p {
                        assert(groups@[g]@ =~= old_groups[g]@.push(pair));
                    } else {
                        assert(keys@[g]@ != k) by {
                            lemma_text_lt_total(keys@[g]@, keys@[p as int]@);
                        }
                        assert(groups@[g] == old_groups[g]);
                        assert(group_pairs(next, keys@[g]@, eid) =~= group_pairs(
                            dms@.take(i as int),
                            keys@[g]@,
                            eid,
                        ));
                    }
                }
            }
        } else {
            proof {
                assert(!text_set(old_keys).contains(k));
                assert(keys@ == old_keys.insert(p as int, id_val));
                assert(p <= groups@.len());
            }
            let mut fresh: Vec<(Date, Date)> = Vec::new();
            fresh.push(pair);
            groups.insert(p, fresh);
            proof {
                assert forall|g: int| 0 <= g < keys@.len() implies (#[trigger] groups@[g])@ == group_pairs(
                    next,
                    keys@[g]@,
                    eid,
                ) by {
                    if g == p {
                        assert(group_pairs(dms@.take(i as int), k, eid) =~= Seq::<(Date, Date)>::empty()) by {
                            lemma_group_pairs_absent(dms@.take(i as int), k, eid);
                        }
                        assert(groups@[g]@ =~= seq![pair]);
                    } else {
                        let og = if g < p { g } else { g - 1 };
                        assert(keys@[g] == old_keys[og]);
                        assert(groups@[g] == old_groups[og]);
                        assert(keys@[g]@ != k) by {
                            lemma_text_lt_total(keys@[g]@, keys@[p as int]@);
                        }
                        assert(group_pairs(next, keys@[g]@, eid) =~= group_pairs(
                            dms@.take(i as int),
                            keys@[g]@,
                            eid,
                        ));
                    }
                }
            }
        }
        proof {
            assert(mapping_fq_ids(next, eid) =~= mapping_fq_ids(dms@.take(i as int), eid).insert(k)) by {
                assert forall|t: Seq<char>| mapping_fq_ids(next, eid).contains(t) implies mapping_fq_ids(
                    dms@.take(i as int),
                    eid,
                ).insert(k).contains(t) by {
                    let a = choose|a: int| 0 <= a < next.len() && #[trigger] next[a].spec_fq_id(eid) == t;
                    if a < i {
                        assert(dms@.take(i as int)[a].spec_fq_id(eid) == t);
                    }
                }
                assert forall|t: Seq<char>| mapping_fq_ids(dms@.take(i as int), eid).insert(k).contains(t)
                    implies mapping_fq_ids(next, eid).contains(t) by {
                    if t == k {
                        assert(next[i as int].spec_fq_id(eid) == t);
                    } else {
                        let a = choose|a: int|
                            0 <= a < dms@.take(i as int).len() && #[trigger] dms@.take(i as int)[a].spec_fq_id(eid) == t;
                        assert(next[a].spec_fq_id(eid) == t);
                    }
                }
            }
        }
        i = i + 1;
    }
    proof {
        assert(dms@.take(i as int) =~= dms@);
    }
    (keys, groups)
}

/// A key no mapping has gathers no pairs.
proof fn lemma_group_pairs_absent(dms: Seq<DateMapping>, key: Seq<char>, edge_list_id: nat)
    requires
        !mapping_fq_ids(dms, edge_list_id).contains(key),
    ensures
        group_pairs(dms, key, edge_list_id) == Seq::<(Date, Date)>::empty(),
    decreases dms.len(),
{
    if dms.len() > 0 {
        assert(!mapping_fq_ids(dms.drop_last(), edge_list_id).contains(key)) by {
            if mapping_fq_ids(dms.drop_last(), edge_list_id).contains(key) {
                let a = choose|a: int|
                    0 <= a < dms.drop_last().len() && #[trigger] dms.drop_last()[a].spec_fq_id(edge_list_id) == key;
                assert(dms[a].spec_fq_id(edge_list_id) == key);
            }
        }
        lemma_group_pairs_absent(dms.drop_last(), key, edge_list_id);
        assert(dms.last().spec_fq_id(edge_list_id) != key) by {
            if dms.last().spec_fq_id(edge_list_id) == key {
                assert(dms[dms.len() - 1].spec_fq_id(edge_list_id) == key);
            }
        }
        assert(group_pairs(dms, key, edge_list_id) =~= Seq::<(Date, Date)>::empty());
    }
}

} // verus!
