//! Choosing a modal metric by name and writing computed values as CSV.
use vstd::prelude::*;
use vstd::string::*;

use crate::metrics::lts::{Lts, LtsError, compute_lts, lts_of};
use crate::metrics::network::{EdgeAttributes, VertexAttributes};
use crate::metrics::wci::{Wci, WciComponents, WciError, compute_wci, is_wci_of};
use crate::text::{chars_of, decimal, push_all, push_decimal, push_signed_decimal, signed_decimal, string_of};

verus! {

/// Errors of modal metric computation.
#[derive(Clone, Debug, PartialEq, Eq)]
pub enum ModalMetricError {
    Wci(WciError),
    Lts(LtsError),
    /// the name of no supported metric
    InvalidModalMetric(String),
    Other(String),
}

/// The supported modal metrics.
#[derive(Clone, Copy, Debug, PartialEq, Eq, Structural)]
pub enum ModalMetric {
    WalkingComfortIndex,
    LevelOfTrafficStress,
}

/// A computed value of a modal metric.
#[derive(Clone, Copy, Debug, PartialEq, Eq, Structural)]
pub enum ModalMetricValue {
    Wci(WciComponents),
    Lts(Lts),
}

/// What the neighboring edges of an edge tell the metrics, as computed from the
/// network's geometry: whether there are any, the speed estimated from their limits
/// (rounded to whole miles per hour), and the cycling and speed comfort scores
/// inferred from them.
#[derive(Clone, Copy, Debug, PartialEq, Eq, Structural)]
pub struct NeighborSummary {
    pub has_neighbors: bool,
    pub estimated_speed_mph: Option<u8>,
    pub cycleway_score: i32,
    pub speed_score: i32,
}

impl NeighborSummary {
    /// The inferred scores lie within the component range -2..=2.
    pub open spec fn wf(self) -> bool {
        -2 <= self.cycleway_score <= 2 && -2 <= self.speed_score <= 2
    }
}

/// The character with ASCII lower-case letters made upper-case.
pub open spec fn ascii_upper(c: char) -> char {
    if 'a' <= c && c <= 'z' {
        ((c as u32) - 32) as char
    } else {
        c
    }
}

/// `s` in ASCII upper case equals `target`.
pub open spec fn upper_equals(s: Seq<char>, target: Seq<char>) -> bool {
    s.len() == target.len() && forall|i: int| 0 <= i < s.len() ==> ascii_upper(s[i]) == target[i]
}

/// Whether `c` is `upper` or its lower-case form, for an upper-case ASCII letter.
fn letter_is(c: char, upper: char, lower: char) -> (r: bool)
    requires
        'A' <= upper <= 'Z',
        lower as u32 == upper as u32 + 32,
    ensures
        r == (ascii_upper(c) == upper),
{
    c == upper || c == lower
}

impl ModalMetric {
    /// The metric named `s`, ignoring ASCII case: `WCI` or `LTS`; an
    /// `InvalidModalMetric` error holding `s` otherwise.
    pub fn parse(s: &str) -> (r: Result<ModalMetric, ModalMetricError>)
        ensures
            upper_equals(s@, seq!['W', 'C', 'I']) ==> r == Ok::<ModalMetric, ModalMetricError>(
                ModalMetric::WalkingComfortIndex,
            ),
            upper_equals(s@, seq!['L', 'T', 'S']) ==> r == Ok::<ModalMetric, ModalMetricError>(
                ModalMetric::LevelOfTrafficStress,
            ),
            !upper_equals(s@, seq!['W', 'C', 'I']) && !upper_equals(s@, seq!['L', 'T', 'S']) ==> (
            r matches Err(ModalMetricError::InvalidModalMetric(m)) && m@ == s@),
    {
        let cs = chars_of(s);
        if cs.len() == 3 {
            if letter_is(cs[0], 'W', 'w') && letter_is(cs[1], 'C', 'c') && letter_is(cs[2], 'I', 'i') {
                assert(upper_equals(s@, seq!['W', 'C', 'I']));
                return Ok(ModalMetric::WalkingComfortIndex);
            }
            if letter_is(cs[0], 'L', 'l') && letter_is(cs[1], 'T', 't') && letter_is(cs[2], 'S', 's') {
                assert(upper_equals(s@, seq!['L', 'T', 'S']));
                return Ok(ModalMetric::LevelOfTrafficStress);
            }
            proof {
                if upper_equals(s@, seq!['W', 'C', 'I']) {
                    assert(ascii_upper(s@[0]) == 'W' && ascii_upper(s@[1]) == 'C' && ascii_upper(s@[2]) == 'I');
                }
                if upper_equals(s@, seq!['L', 'T', 'S']) {
                    assert(ascii_upper(s@[0]) == 'L' && ascii_upper(s@[1]) == 'T' && ascii_upper(s@[2]) == 'S');
                }
            }
        }
        Err(ModalMetricError::InvalidModalMetric(String::from_str(s)))
    }

    /// Computes the metric for an edge, given what its neighbors tell and its source
    /// vertex, as [`compute_wci`] or [`compute_lts`] does; their errors are wrapped.
    pub fn compute_metric(
        &self,
        edge: &EdgeAttributes,
        neighbors: &NeighborSummary,
        src_vertex: Option<VertexAttributes>,
    ) -> (r: Result<ModalMetricValue, ModalMetricError>)
        requires
            neighbors.wf(),
        ensures
            *self == ModalMetric::WalkingComfortIndex ==> (r matches Ok(ModalMetricValue::Wci(c))
                && is_wci_of(
                c,
                *edge,
                neighbors.has_neighbors,
                neighbors.cycleway_score as int,
                neighbors.speed_score as int,
                src_vertex,
            )),
            *self == ModalMetric::LevelOfTrafficStress ==> (r matches Ok(ModalMetricValue::Lts(l))
                && l.spec_level() == lts_of(*edge, neighbors.estimated_speed_mph)),
    {
        match self {
            ModalMetric::WalkingComfortIndex => {
                match compute_wci(
                    edge,
                    neighbors.has_neighbors,
                    neighbors.cycleway_score,
                    neighbors.speed_score,
                    src_vertex,
                ) {
                    Ok(c) => Ok(ModalMetricValue::Wci(c)),
                    Err(e) => Err(ModalMetricError::Wci(e)),
                }
            },
            ModalMetric::LevelOfTrafficStress => {
                match compute_lts(edge, neighbors.estimated_speed_mph) {
                    Ok(l) => Ok(ModalMetricValue::Lts(l)),
                    Err(e) => Err(ModalMetricError::Lts(e)),
                }
            },
        }
    }

    /// The CSV header line of the metric's values.
    pub open spec fn csv_header(self) -> Seq<char> {
        match self {
            ModalMetric::WalkingComfortIndex => "wci_total,wci_walk,wci_speed,wci_cycle,wci_signal\n"@,
            ModalMetric::LevelOfTrafficStress => "lts\n"@,
        }
    }

    /// Appends the CSV header line of the metric's values.
    pub fn write_csv_header(&self, writer: &mut String)
        ensures
            final(writer)@ == old(writer)@ + self.csv_header(),
    {
        match self {
            ModalMetric::WalkingComfortIndex => {
                writer.append("wci_total,wci_walk,wci_speed,wci_cycle,wci_signal\n");
            },
            ModalMetric::LevelOfTrafficStress => {
                writer.append("lts\n");
            },
        }
    }
}

impl core::str::FromStr for ModalMetric {
    type Err = ModalMetricError;

    fn from_str(s: &str) -> (r: Result<ModalMetric, ModalMetricError>)
        ensures
            upper_equals(s@, seq!['W', 'C', 'I']) ==> r == Ok::<ModalMetric, ModalMetricError>(
                ModalMetric::WalkingComfortIndex,
            ),
            upper_equals(s@, seq!['L', 'T', 'S']) ==> r == Ok::<ModalMetric, ModalMetricError>(
                ModalMetric::LevelOfTrafficStress,
            ),
            !upper_equals(s@, seq!['W', 'C', 'I']) && !upper_equals(s@, seq!['L', 'T', 'S']) ==> (
            r matches Err(ModalMetricError::InvalidModalMetric(m)) && m@ == s@),
    {
        ModalMetric::parse(s)
    }
}

/// The CSV cell of an optional index value: its number, or nothing.
pub open spec fn optional_cell(v: Option<Wci>) -> Seq<char> {
    match v {
        Some(w) => signed_decimal(w.spec_value() as int),
        None => seq![],
    }
}

fn push_optional_cell(out: &mut Vec<char>, v: &Option<Wci>)
    ensures
        final(out)@ == old(out)@ + optional_cell(*v),
{
    match v {
        Some(w) => {
            push_signed_decimal(out, w.value() as i64);
        },
        None => {},
    }
}

impl ModalMetricValue {
    /// The CSV row of the value: for an index, the total and the four components
    /// (empty where absent); for a stress level, the level.
    pub open spec fn csv_row(self) -> Seq<char> {
        match self {
            ModalMetricValue::Wci(c) => signed_decimal(c.total.spec_value() as int) + seq![',']
                + optional_cell(c.walkability) + seq![','] + optional_cell(c.traffic_speed_comfort)
                + seq![','] + optional_cell(c.cycleway_comfort) + seq![','] + optional_cell(
                c.traffic_signal_comfort,
            ) + seq!['\n'],
            ModalMetricValue::Lts(l) => decimal(l.spec_level() as nat) + seq!['\n'],
        }
    }

    /// Appends the CSV row of the value.
    pub fn write_csv_row(&self, writer: &mut String)
        ensures
            final(writer)@ == old(writer)@ + self.csv_row(),
    {
        let mut cs: Vec<char> = Vec::new();
        match self {
            ModalMetricValue::Wci(c) => {
                push_signed_decimal(&mut cs, c.total.value() as i64);
                cs.push(',');
                push_optional_cell(&mut cs, &c.walkability);
                cs.push(',');
                push_optional_cell(&mut cs, &c.traffic_speed_comfort);
                cs.push(',');
                push_optional_cell(&mut cs, &c.cycleway_comfort);
                cs.push(',');
                push_optional_cell(&mut cs, &c.traffic_signal_comfort);
                cs.push('\n');
            },
            ModalMetricValue::Lts(l) => {
                push_decimal(&mut cs, l.level() as u64);
                cs.push('\n');
            },
        }
        let line = string_of(&cs);
        writer.append(line.as_str());
    }
}

} // verus!
