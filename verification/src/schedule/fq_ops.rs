//! Fully-qualified route identifiers.
use vstd::prelude::*;

use crate::text::{decimal, push_decimal, push_str, replace_char, replace_chars, string_of};

verus! {

pub const EMPTY_FEED_PLACEHOLDER: &'static str = "()";

pub const EMPTY_AGENCY_PLACEHOLDER: &'static str = "()";

pub const FQ_METADATA_FIELDNAME: &'static str = "fq_route_ids";

pub const FQ_ROUTE_ID_SEPARATOR: &'static str = "->";

/// A present, non-empty id, or the placeholder used in its place.
pub open spec fn id_or_placeholder(id: Option<Seq<char>>) -> Seq<char> {
    match id {
        Some(s) => if s.len() > 0 {
            s
        } else {
            "()"@
        },
        None => "()"@,
    }
}

/// The view of an optional string slice.
pub open spec fn opt_str_view(id: Option<&str>) -> Option<Seq<char>> {
    match id {
        Some(s) => Some(s@),
        None => None,
    }
}

/// The view of an optional string.
pub open spec fn opt_string_view(id: Option<String>) -> Option<Seq<char>> {
    match id {
        Some(s) => Some(s@),
        None => None,
    }
}

/// The edge list, feed, agency, route and service ids joined by `->`, with every
/// comma replaced by an underscore.
pub open spec fn fq_route_id(
    feed_id: Option<Seq<char>>,
    agency_id: Option<Seq<char>>,
    route_id: Seq<char>,
    service_id: Seq<char>,
    edge_list_id: nat,
) -> Seq<char> {
    replace_char(
        decimal(edge_list_id) + "->"@ + id_or_placeholder(feed_id) + "->"@ + id_or_placeholder(
            agency_id,
        ) + "->"@ + route_id + "->"@ + service_id,
        ',',
        '_',
    )
}

fn push_id_or_placeholder(out: &mut Vec<char>, id: Option<&str>)
    ensures
        final(out)@ == old(out)@ + id_or_placeholder(opt_str_view(id)),
{
    match id {
        Some(s) => {
            if !s.is_empty() {
                push_str(out, s);
            } else {
                push_str(out, "()");
            }
        },
        None => push_str(out, "()"),
    }
}

/// the concatenation of the edge list, feed, agency, route, and service id.
///
/// names are cleaned of commas for CSV compatibility. a missing or empty feed or
/// agency id is written as `()`. the multi-character separator `->` allows the
/// name to be taken apart again, as GTFS ids may hold any UTF-8 characters.
pub fn get_fully_qualified_route_id(
    feed_id: Option<&str>,
    agency_id: Option<&str>,
    route_id: &str,
    service_id: &str,
    edge_list_id: usize,
) -> (r: String)
    ensures
        r@ == fq_route_id(
            opt_str_view(feed_id),
            opt_str_view(agency_id),
            route_id@,
            service_id@,
            edge_list_id as nat,
        ),
{
    let mut out: Vec<char> = Vec::new();
    push_decimal(&mut out, edge_list_id as u64);
    push_str(&mut out, "->");
    push_id_or_placeholder(&mut out, feed_id);
    push_str(&mut out, "->");
    push_id_or_placeholder(&mut out, agency_id);
    push_str(&mut out, "->");
    push_str(&mut out, route_id);
    push_str(&mut out, "->");
    push_str(&mut out, service_id);
    let cleaned = replace_chars(&out, ',', '_');
    string_of(&cleaned)
}

/// Borrows the contents of an optional string.
pub fn opt_as_str(s: &Option<String>) -> (r: Option<&str>)
    ensures
        opt_str_view(r) == opt_string_view(*s),
{
    match s {
        Some(v) => Some(v.as_str()),
        None => None,
    }
}

} // verus!
