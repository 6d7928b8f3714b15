//! Trips cut off from the graph: those visiting a stop that could not be matched onto
//! it.
use vstd::prelude::*;

use crate::text::{chars_eq, chars_of};

verus! {

/// The texts of a list of strings.
pub open spec fn texts(v: Seq<String>) -> Seq<Seq<char>> {
    v.map_values(|s: String| s@)
}

/// A list of stop ids names one of the disconnected stops.
pub open spec fn visits_any(stops: Seq<Seq<char>>, disconnected: Seq<Seq<char>>) -> bool {
    exists|i: int, j: int|
        0 <= i < stops.len() && 0 <= j < disconnected.len() && #[trigger] stops[i]
            == #[trigger] disconnected[j]
}

/// The ids of the trips, each given as its id and the ids of the stops it visits, that
/// visit a disconnected stop, in the order of the trips.
pub open spec fn cut_trip_ids(trips: Seq<(String, Vec<String>)>, disconnected: Seq<Seq<char>>) -> Seq<
    Seq<char>,
>
    decreases trips.len(),
{
    if trips.len() == 0 {
        Seq::empty()
    } else {
        let rest = cut_trip_ids(trips.drop_last(), disconnected);
        if visits_any(texts(trips.last().1@), disconnected) {
            rest.push(trips.last().0@)
        } else {
            rest
        }
    }
}

/// Whether the list holds a string with the same text as `s`.
fn holds_text(list: &Vec<String>, s: &String) -> (r: bool)
    ensures
        r == exists|j: int| 0 <= j < list@.len() && #[trigger] list@[j]@ == s@,
{
    let target = chars_of(s.as_str());
    let mut j: usize = 0;
    while j < list.len()
        invariant
            j <= list@.len(),
            target@ == s@,
            forall|k: int| 0 <= k < j ==> #[trigger] list@[k]@ != s@,
        decreases list@.len() - j,
    {
        let candidate = chars_of(list[j].as_str());
        if chars_eq(&candidate, &target) {
            return true;
        }
        j += 1;
    }
    false
}

/// Whether a trip's stops include a disconnected one.
fn visits_disconnected(stops: &Vec<String>, disconnected: &Vec<String>) -> (r: bool)
    ensures
        r == visits_any(texts(stops@), texts(disconnected@)),
{
    let ghost st = texts(stops@);
    let ghost cut = texts(disconnected@);
    let mut i: usize = 0;
    while i < stops.len()
        invariant
            i <= stops@.len(),
            st == texts(stops@),
            cut == texts(disconnected@),
            forall|a: int, b: int|
                0 <= a < i && 0 <= b < cut.len() ==> #[trigger] st[a] != #[trigger] cut[b],
        decreases stops@.len() - i,
    {
        if holds_text(disconnected, &stops[i as usize]) {
            proof {
                let b = choose|b: int| 0 <= b < disconnected@.len() && #[trigger] disconnected@[b]@
                    == stops@[i as int]@;
                assert(st[i as int] == cut[b]);
            }
            return true;
        }
        proof {
            assert forall|b: int| 0 <= b < cut.len() implies #[trigger] st[i as int] != cut[b] by {
                assert(cut[b] == disconnected@[b]@);
            }
        }
        i += 1;
    }
    false
}

/// The ids of the trips to remove from a feed: those of the trips, each given as its id
/// and the ids of the stops it visits, that visit one of the disconnected stops, in the
/// order of the trips.
pub fn disconnected_trip_ids(trips: &Vec<(String, Vec<String>)>, disconnected_stops: &Vec<String>) -> (r:
    Vec<String>)
    ensures
        texts(r@) == cut_trip_ids(trips@, texts(disconnected_stops@)),
{
    let ghost cut = texts(disconnected_stops@);
    let mut out: Vec<String> = Vec::new();
    let mut i: usize = 0;
    while i < trips.len()
        invariant
            i <= trips@.len(),
            cut == texts(disconnected_stops@),
            texts(out@) == cut_trip_ids(trips@.take(i as int), cut),
        decreases trips@.len() - i,
    {
        proof {
            assert(trips@.take(i + 1).drop_last() =~= trips@.take(i as int));
            assert(trips@.take(i + 1).last() == trips@[i as int]);
        }
        if visits_disconnected(&trips[i].1, disconnected_stops) {
            let id = trips[i].0.clone();
            let ghost before = out@;
            out.push(id);
            proof {
                assert(texts(out@) =~= texts(before).push(id@));
            }
        }
        i += 1;
    }
    proof {
        assert(trips@.take(trips@.len() as int) =~= trips@);
    }
    out
}

} // verus!
