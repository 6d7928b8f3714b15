//! The decisions of a GTFS-Flex search step: the current instant, the trip's source
//! zone as kept in the search state, and whether the trip may board or alight.
use vstd::prelude::*;

use crate::category::{CategoricalMapping, EMPTY_CATEGORICAL_VALUE};
use crate::flex::graph::{ZoneGraph, any_valid_at};
use crate::flex::zone_id::{ZoneError, ZoneId};
use crate::temporal::{DateTime, NANOS_PER_DAY, NANOS_PER_SEC, spec_display_datetime};
use crate::text::{decimal, push_decimal, push_signed_decimal, push_str, signed_decimal, string_of};
use crate::transit::ops::TransitError;

verus! {

/// The start instant with its second-of-minute replaced by `second` (its fraction of
/// a second kept), as chrono's `with_second` builds it.
pub open spec fn with_second(start: DateTime, second: int) -> int {
    let day = start.spec_days();
    let nod = start.spec_nanos_of_day();
    let secs = nod / NANOS_PER_SEC as int;
    let frac = nod % NANOS_PER_SEC as int;
    day * NANOS_PER_DAY + (secs / 60 * 60 + second) * NANOS_PER_SEC + frac
}

/// The message of a trip time that cannot be set as the second of the start instant.
pub open spec fn second_overflow_message(start: DateTime, seconds: u32) -> Seq<char> {
    "overflow when adding "@ + decimal(seconds as nat) + " seconds to "@ + spec_display_datetime(
        start.spec_days(),
        start.spec_nanos_of_day() / (NANOS_PER_SEC as int),
        start.spec_nanos_of_day() % (NANOS_PER_SEC as int),
    )
}

/// The current instant of a flex search: the start instant with its second of the
/// minute set to the trip time in whole seconds (chrono's `with_second`), which is
/// an error for 60 seconds or more.
pub fn create_current_datetime(start_time: &DateTime, trip_seconds: u32) -> (r: Result<
    DateTime,
    TransitError,
>)
    requires
        start_time.wf(),
    ensures
        trip_seconds < 60 ==> r == Ok::<DateTime, TransitError>(
            DateTime { nanos: with_second(*start_time, trip_seconds as int) as i128 },
        ),
        trip_seconds >= 60 ==> (r matches Err(TransitError::TraversalModelFailure(m)) && m@
            == second_overflow_message(*start_time, trip_seconds)),
        r matches Ok(t) ==> t.wf(),
{
    if trip_seconds >= 60 {
        let mut msg: Vec<char> = Vec::new();
        push_str(&mut msg, "overflow when adding ");
        push_decimal(&mut msg, trip_seconds as u64);
        push_str(&mut msg, " seconds to ");
        let shown = start_time.display();
        push_str(&mut msg, shown.as_str());
        return Err(TransitError::TraversalModelFailure(string_of(&msg)));
    }
    let date = start_time.date();
    let nod = start_time.nanos_of_day();
    let secs = nod / 1_000_000_000u64;
    let frac = nod % 1_000_000_000u64;
    let new_nod = (secs / 60 * 60 + trip_seconds as u64) * 1_000_000_000u64 + frac;
    proof {
        assert(secs < 86_400);
        assert(secs / 60 * 60 + 59 < 86_400);
    }
    Ok(date.and_nanos(new_nod))
}

/// Whether the state's source zone label is set.
pub fn src_zone_id_set(label: i64) -> (r: bool)
    ensures
        r == (label != EMPTY_CATEGORICAL_VALUE),
{
    label != EMPTY_CATEGORICAL_VALUE
}

/// The message of a label without a zone.
pub open spec fn unknown_label_message(label: i64) -> Seq<char> {
    "label "@ + signed_decimal(label as int) + " has no corresponding ZoneId in mapping"@
}

/// The source zone of the trip as the state's label names it: none for the empty
/// label, an error for a label without a zone.
pub fn get_src_zone_id(label: i64, mapping: &CategoricalMapping) -> (r: Result<
    Option<ZoneId>,
    String,
>)
    ensures
        label == EMPTY_CATEGORICAL_VALUE ==> r == Ok::<Option<ZoneId>, String>(None),
        label != EMPTY_CATEGORICAL_VALUE && 0 <= label < mapping.names().len() ==> (r matches Ok(
            Some(z),
        ) && z@ == mapping.names()[label as int]),
        label != EMPTY_CATEGORICAL_VALUE && !(0 <= label < mapping.names().len()) ==> (r matches Err(
            m,
        ) && m@ == unknown_label_message(label)),
{
    if label == EMPTY_CATEGORICAL_VALUE {
        return Ok(None);
    }
    match mapping.get_categorical(label) {
        Some(s) => Ok(Some(ZoneId::from_known(s.clone()))),
        None => {
            let mut msg: Vec<char> = Vec::new();
            push_str(&mut msg, "label ");
            push_signed_decimal(&mut msg, label);
            push_str(&mut msg, " has no corresponding ZoneId in mapping");
            Err(string_of(&msg))
        },
    }
}

/// The message of a zone without a label.
pub open spec fn unmapped_zone_message(zone: Seq<char>) -> Seq<char> {
    "zone id '"@ + zone + "' not present in categorical mapping"@
}

/// The label to store in the state for the trip's source zone; an internal error for
/// a zone without a label.
pub fn set_src_zone_id(zone_id: &ZoneId, mapping: &CategoricalMapping) -> (r: Result<
    i64,
    TransitError,
>)
    requires
        mapping.wf(),
    ensures
        mapping.names().contains(zone_id@) ==> (r matches Ok(l) && 0 <= l < mapping.names().len()
            && mapping.names()[l as int] == zone_id@),
        !mapping.names().contains(zone_id@) ==> (r matches Err(TransitError::InternalError(m))
            && m@ == unmapped_zone_message(zone_id@)),
{
    match mapping.get_label(zone_id.as_str()) {
        Some(l) => Ok(l),
        None => {
            let mut msg: Vec<char> = Vec::new();
            push_str(&mut msg, "zone id '");
            push_str(&mut msg, zone_id.as_str());
            push_str(&mut msg, "' not present in categorical mapping");
            Err(TransitError::InternalError(string_of(&msg)))
        },
    }
}

/// Whether a trip that boarded in `src_zone_id` may end where the current vertex
/// lies: some zone covering the vertex (`zones_at_vertex`, as the spatial index
/// finds them, in its order) is related to the source zone in the graph.
pub fn valid_destination(
    graph: &ZoneGraph,
    src_zone_id: &ZoneId,
    zones_at_vertex: &Vec<ZoneId>,
    current_time: &DateTime,
) -> (r: Result<bool, ZoneError>)
    requires
        graph.wf(),
    ensures
        r matches Ok(b) && b == exists|k: int|
            0 <= k < zones_at_vertex@.len() && #[trigger] graph.relation(
                src_zone_id@,
                zones_at_vertex@[k]@,
            ) is Some,
{
    let mut k: usize = 0;
    while k < zones_at_vertex.len()
        invariant
            graph.wf(),
            k <= zones_at_vertex@.len(),
            forall|j: int|
                0 <= j < k ==> #[trigger] graph.relation(src_zone_id@, zones_at_vertex@[j]@) is None,
        decreases zones_at_vertex@.len() - k,
    {
        let is_valid = match graph.valid_zonal_trip(src_zone_id, &zones_at_vertex[k], current_time) {
            Ok(b) => b,
            Err(e) => {
                return Err(e);
            },
        };
        if is_valid {
            return Ok(true);
        }
        k = k + 1;
    }
    Ok(false)
}

/// The message of a departure check whose current instant cannot be built.
pub open spec fn frontier_time_message(start: DateTime, seconds: u32) -> Seq<char> {
    "while validating frontier for gtfs-flex trip and constructing current datetime at edge traversal, "@
        + second_overflow_message(start, seconds)
}

/// Whether a flex trip may continue over an edge whose destination vertex lies in
/// `zone_at_vertex` (the first zone the spatial index finds there, if any): a trip
/// already under way may; otherwise it must board there, in a zone from which the
/// graph accepts a departure at the current instant, built from the start instant and
/// the trip time as [`create_current_datetime`] builds it.
pub fn valid_frontier(
    graph: &ZoneGraph,
    src_zone_label: i64,
    zone_at_vertex: Option<ZoneId>,
    start_time: &DateTime,
    trip_seconds: u32,
) -> (r: Result<bool, String>)
    requires
        graph.wf(),
        start_time.wf(),
    ensures
        src_zone_label != EMPTY_CATEGORICAL_VALUE ==> r == Ok::<bool, String>(true),
        src_zone_label == EMPTY_CATEGORICAL_VALUE && trip_seconds >= 60 ==> (r matches Err(m) && m@
            == frontier_time_message(*start_time, trip_seconds)),
        src_zone_label == EMPTY_CATEGORICAL_VALUE && trip_seconds < 60 && zone_at_vertex is None
            ==> r == Ok::<bool, String>(false),
        src_zone_label == EMPTY_CATEGORICAL_VALUE && trip_seconds < 60 && zone_at_vertex is Some ==> (
        r matches Ok(b) && b == (graph.relations_from(zone_at_vertex->Some_0@) matches Some(rs)
            && any_valid_at(rs, with_second(*start_time, trip_seconds as int) % NANOS_PER_DAY as int))),
{
    if src_zone_id_set(src_zone_label) {
        return Ok(true);
    }
    let current_time = match create_current_datetime(start_time, trip_seconds) {
        Ok(t) => t,
        Err(e) => {
            let mut msg: Vec<char> = Vec::new();
            push_str(
                &mut msg,
                "while validating frontier for gtfs-flex trip and constructing current datetime at edge traversal, ",
            );
            let text = e.message();
            push_str(&mut msg, text.as_str());
            return Err(string_of(&msg));
        },
    };
    match zone_at_vertex {
        Some(z) => match graph.valid_departure(&z, &current_time) {
            Ok(b) => Ok(b),
            Err(e) => Err(e.message()),
        },
        None => Ok(false),
    }
}

/// The message of a destination check on a trip without a source zone.
pub open spec fn missing_src_zone_message() -> Seq<char> {
    "field 'trip_src_zone_id' exists in state get_src_zone_id fails"@
}

/// Whether the vertex an edge reaches is a valid place to end the flex trip under way:
/// the trip's source zone is read from its state label (an internal error when none is
/// set), the current instant is built from the start instant and the trip time, and
/// [`valid_destination`] decides over the zones covering the vertex.
pub fn validate_flex_destination(
    graph: &ZoneGraph,
    mapping: &CategoricalMapping,
    src_zone_label: i64,
    start_time: &DateTime,
    trip_seconds: u32,
    zones_at_vertex: &Vec<ZoneId>,
) -> (r: Result<bool, TransitError>)
    requires
        graph.wf(),
        start_time.wf(),
    ensures
        src_zone_label == EMPTY_CATEGORICAL_VALUE ==> (r matches Err(TransitError::InternalError(m))
            && m@ == missing_src_zone_message()),
        src_zone_label != EMPTY_CATEGORICAL_VALUE && !(0 <= src_zone_label < mapping.names().len()) ==> (
        r matches Err(TransitError::TraversalModelFailure(m)) && m@ == "while validating flex destination, "@
            + unknown_label_message(src_zone_label)),
        src_zone_label != EMPTY_CATEGORICAL_VALUE && 0 <= src_zone_label < mapping.names().len()
            && trip_seconds >= 60 ==> (r matches Err(TransitError::TraversalModelFailure(m)) && m@
            == "while validating flex destination, "@ + second_overflow_message(*start_time, trip_seconds)),
        src_zone_label != EMPTY_CATEGORICAL_VALUE && 0 <= src_zone_label < mapping.names().len()
            && trip_seconds < 60 ==> (r matches Ok(b) && b == exists|k: int|
            0 <= k < zones_at_vertex@.len() && #[trigger] graph.relation(
                mapping.names()[src_zone_label as int],
                zones_at_vertex@[k]@,
            ) is Some),
{
    let src_zone_id = match get_src_zone_id(src_zone_label, mapping) {
        Ok(Some(z)) => z,
        Ok(None) => {
            let mut msg: Vec<char> = Vec::new();
            push_str(&mut msg, "field 'trip_src_zone_id' exists in state get_src_zone_id fails");
            proof {
                reveal_strlit("field 'trip_src_zone_id' exists in state get_src_zone_id fails");
            }
            return Err(TransitError::InternalError(string_of(&msg)));
        },
        Err(e) => {
            let mut msg: Vec<char> = Vec::new();
            push_str(&mut msg, "while validating flex destination, ");
            push_str(&mut msg, e.as_str());
            return Err(TransitError::TraversalModelFailure(string_of(&msg)));
        },
    };
    let current_time = match create_current_datetime(start_time, trip_seconds) {
        Ok(t) => t,
        Err(e) => {
            let mut msg: Vec<char> = Vec::new();
            push_str(&mut msg, "while validating flex destination, ");
            let text = e.message();
            push_str(&mut msg, text.as_str());
            return Err(TransitError::TraversalModelFailure(string_of(&msg)));
        },
    };
    match valid_destination(graph, &src_zone_id, zones_at_vertex, &current_time) {
        Ok(b) => Ok(b),
        Err(e) => Err(TransitError::TraversalModelFailure(e.message())),
    }
}

} // verus!
