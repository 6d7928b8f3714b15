//! Level of Traffic Stress (LTS) for cycling, from 1 (comfortable for most riders)
//! to 4 (tolerated only by the most confident riders).
use vstd::prelude::*;

use crate::metrics::cycleway_tag::CyclewayTag;
use crate::metrics::network::EdgeAttributes;
use crate::text::{decimal, push_decimal, push_str, string_of};

verus! {

/// The lowest stress level.
pub const MIN_LTS: u8 = 1;

/// The highest stress level.
pub const MAX_LTS: u8 = 4;

/// Speed assumed, in miles per hour, for an edge with no posted limit whose
/// neighbors give no estimate either.
pub const DEFAULT_SPEED_MPH: u8 = 25;

/// An error building a stress level.
#[derive(Clone, Copy, Debug, PartialEq, Eq, Structural)]
pub enum LtsError {
    /// the value lies outside `MIN_LTS..=MAX_LTS`
    InvalidLts(u8),
}

impl LtsError {
    /// The error's message.
    pub fn message(&self) -> (r: String)
        ensures
            r@ == lts_error_message(*self),
    {
        match self {
            LtsError::InvalidLts(v) => {
                let mut msg: Vec<char> = Vec::new();
                push_str(&mut msg, "invalid LTS value ");
                push_decimal(&mut msg, *v as u64);
                push_str(&mut msg, ", must be between 1 and 4");
                string_of(&msg)
            },
        }
    }
}

/// The message of an error building a stress level.
pub open spec fn lts_error_message(e: LtsError) -> Seq<char> {
    match e {
        LtsError::InvalidLts(v) => "invalid LTS value "@ + decimal(v as nat)
            + ", must be between 1 and 4"@,
    }
}

/// A level of traffic stress, always within `MIN_LTS..=MAX_LTS`.
#[derive(Clone, Copy, Debug, PartialEq, Eq, Structural)]
pub struct Lts {
    level: u8,
}

/// The stress level of a street by its speed (miles per hour), its cycling facility
/// and whether it is one-way:
/// - a buffered dedicated cycleway is level 1 at any speed;
/// - an unbuffered dedicated cycleway is 1 up to 25 mph, 2 up to 30, 3 up to 35, else 4;
/// - shared facilities without a dedicated lane are 1 up to 25 mph, 2 up to 30,
///   3 up to 35, else 4;
/// - no facility at all is 2 up to 25 mph, 3 up to 30, else 4;
/// and without a dedicated lane, a one-way street up to 25 mph is one level lower
/// (never below 1).
pub open spec fn lts_table(speed_mph: u8, cycleway_tag: CyclewayTag, oneway: bool) -> u8 {
    match cycleway_tag {
        CyclewayTag::DedicatedWithBuffer => 1,
        CyclewayTag::DedicatedNoBuffer => if speed_mph <= 25 {
            1
        } else if speed_mph <= 30 {
            2
        } else if speed_mph <= 35 {
            3
        } else {
            4
        },
        CyclewayTag::NoDedicatedWithFacilities => if speed_mph <= 25 {
            1
        } else if speed_mph <= 30 {
            2
        } else if speed_mph <= 35 {
            3
        } else {
            4
        },
        CyclewayTag::NoDedicatedNoFacilities => if speed_mph <= 25 {
            if oneway {
                1
            } else {
                2
            }
        } else if speed_mph <= 30 {
            3
        } else {
            4
        },
    }
}

impl Lts {
    /// The level held.
    pub closed spec fn spec_level(self) -> u8 {
        self.level
    }

    /// The level lies within `MIN_LTS..=MAX_LTS`.
    pub open spec fn wf(self) -> bool {
        MIN_LTS <= self.spec_level() <= MAX_LTS
    }

    /// The level held.
    pub fn level(&self) -> (r: u8)
        ensures
            r == self.spec_level(),
    {
        self.level
    }

    /// A stress level; an error for a value outside `MIN_LTS..=MAX_LTS`.
    pub fn new(value: u8) -> (r: Result<Lts, LtsError>)
        ensures
            MIN_LTS <= value <= MAX_LTS ==> (r matches Ok(l) && l.spec_level() == value && l.wf()),
            !(MIN_LTS <= value <= MAX_LTS) ==> r == Err::<Lts, LtsError>(LtsError::InvalidLts(value)),
    {
        if MIN_LTS <= value && value <= MAX_LTS {
            Ok(Lts { level: value })
        } else {
            Err(LtsError::InvalidLts(value))
        }
    }

    /// The stress level of a street by its speed, cycling facility and direction, as
    /// [`lts_table`] gives it.
    pub fn from_table_lookup(speed_mph: u8, cycleway_tag: CyclewayTag, oneway: bool) -> (r: Result<
        Lts,
        LtsError,
    >)
        ensures
            r matches Ok(l) && l.spec_level() == lts_table(speed_mph, cycleway_tag, oneway) && l.wf(),
    {
        let level: u8 = match cycleway_tag {
            CyclewayTag::DedicatedWithBuffer => 1,
            CyclewayTag::DedicatedNoBuffer => if speed_mph <= 25 {
                1
            } else if speed_mph <= 30 {
                2
            } else if speed_mph <= 35 {
                3
            } else {
                4
            },
            CyclewayTag::NoDedicatedWithFacilities => if speed_mph <= 25 {
                1
            } else if speed_mph <= 30 {
                2
            } else if speed_mph <= 35 {
                3
            } else {
                4
            },
            CyclewayTag::NoDedicatedNoFacilities => if speed_mph <= 25 {
                if oneway {
                    1
                } else {
                    2
                }
            } else if speed_mph <= 30 {
                3
            } else {
                4
            },
        };
        Lts::new(level)
    }

    /// The level as text.
    pub fn to_string(&self) -> (r: String)
        ensures
            r@ == decimal(self.spec_level() as nat),
    {
        let mut cs: Vec<char> = Vec::new();
        push_decimal(&mut cs, self.level as u64);
        string_of(&cs)
    }
}

/// A posted speed limit as the whole miles per hour used for table lookups: limits
/// beyond `0..=255` are clamped to that range.
pub open spec fn speed_as_u8(limit: i32) -> u8 {
    if limit < 0 {
        0
    } else if limit > 255 {
        255
    } else {
        limit as u8
    }
}

/// The stress level of an edge: the highest for an edge that cannot be ridden, the
/// lowest for one without motorized traffic, and otherwise the table level for its
/// speed (the posted limit, else the estimate from neighboring edges, else
/// [`DEFAULT_SPEED_MPH`]), its cycleway (no facility when it has none) and
/// direction.
pub open spec fn lts_of(edge: EdgeAttributes, neighbor_speed_mph: Option<u8>) -> u8 {
    if edge.unbikeable {
        MAX_LTS
    } else if edge.non_motorized {
        MIN_LTS
    } else {
        lts_table(
            match edge.traffic_speed_limit {
                Some(limit) => speed_as_u8(limit),
                None => match neighbor_speed_mph {
                    Some(s) => s,
                    None => DEFAULT_SPEED_MPH,
                },
            },
            match edge.cycleway_tag {
                Some(t) => t,
                None => CyclewayTag::NoDedicatedNoFacilities,
            },
            edge.oneway,
        )
    }
}

/// The stress level of an edge, as [`lts_of`] gives it.
pub fn compute_lts(edge: &EdgeAttributes, neighbor_speed_mph: Option<u8>) -> (r: Result<
    Lts,
    LtsError,
>)
    ensures
        r matches Ok(l) && l.wf() && l.spec_level() == lts_of(*edge, neighbor_speed_mph),
{
    if edge.unbikeable {
        return Lts::new(MAX_LTS);
    }
    if edge.non_motorized {
        return Lts::new(MIN_LTS);
    }
    let speed: u8 = match edge.traffic_speed_limit {
        Some(limit) => if limit < 0 {
            0
        } else if limit > 255 {
            255
        } else {
            limit as u8
        },
        None => match neighbor_speed_mph {
            Some(s) => s,
            None => DEFAULT_SPEED_MPH,
        },
    };
    let cycleway_tag = match edge.cycleway_tag {
        Some(t) => t,
        None => CyclewayTag::NoDedicatedNoFacilities,
    };
    Lts::from_table_lookup(speed, cycleway_tag, edge.oneway)
}

/// The direction of an edge counts: making an edge one-way never raises its stress
/// level, and an edge that can be ridden, carries motorized traffic, has no cycleway and
/// a posted limit of at most 25 mph is at level 1 one-way and at level 2 two-way.
pub proof fn lemma_oneway_lowers_stress(edge: EdgeAttributes, neighbor_speed_mph: Option<u8>)
    ensures
        lts_of(EdgeAttributes { oneway: true, ..edge }, neighbor_speed_mph) <= lts_of(
            EdgeAttributes { oneway: false, ..edge },
            neighbor_speed_mph,
        ),
        !edge.unbikeable && !edge.non_motorized && edge.cycleway_tag is None && (
        edge.traffic_speed_limit matches Some(l) && 0 <= l <= 25) ==> {
            &&& lts_of(EdgeAttributes { oneway: true, ..edge }, neighbor_speed_mph) == 1
            &&& lts_of(EdgeAttributes { oneway: false, ..edge }, neighbor_speed_mph) == 2
        },
{
}

/// What decides an edge's stress level: an edge that cannot be ridden is at the highest
/// level and a ridable one without motorized traffic at the lowest, whatever else holds;
/// an edge's own posted limit makes the speed estimated from its neighbors irrelevant;
/// without a limit the estimate counts as the limit, and without either the default
/// speed does; an edge without a cycleway tag is rated as having no facility; and every
/// level lies within `MIN_LTS..=MAX_LTS`.
pub proof fn lemma_lts_inputs(
    edge: EdgeAttributes,
    neighbor_speed_mph: Option<u8>,
    other_neighbor_speed_mph: Option<u8>,
    estimate: u8,
)
    ensures
        edge.unbikeable ==> lts_of(edge, neighbor_speed_mph) == MAX_LTS,
        !edge.unbikeable && edge.non_motorized ==> lts_of(edge, neighbor_speed_mph) == MIN_LTS,
        edge.traffic_speed_limit is Some ==> lts_of(edge, neighbor_speed_mph) == lts_of(
            edge,
            other_neighbor_speed_mph,
        ),
        lts_of(EdgeAttributes { traffic_speed_limit: None, ..edge }, Some(estimate)) == lts_of(
            EdgeAttributes { traffic_speed_limit: Some(estimate as i32), ..edge },
            other_neighbor_speed_mph,
        ),
        lts_of(EdgeAttributes { traffic_speed_limit: None, ..edge }, None) == lts_of(
            EdgeAttributes { traffic_speed_limit: Some(DEFAULT_SPEED_MPH as i32), ..edge },
            other_neighbor_speed_mph,
        ),
        lts_of(EdgeAttributes { cycleway_tag: None, ..edge }, neighbor_speed_mph) == lts_of(
            EdgeAttributes { cycleway_tag: Some(CyclewayTag::NoDedicatedNoFacilities), ..edge },
            neighbor_speed_mph,
        ),
        MIN_LTS <= lts_of(edge, neighbor_speed_mph) <= MAX_LTS,
{
}

/// Stress does not decrease with speed: on the same facility and direction, a
/// faster street is at least as stressful as a slower one.
pub proof fn lemma_lts_monotone_in_speed(
    slower: u8,
    faster: u8,
    cycleway_tag: CyclewayTag,
    oneway: bool,
)
    requires
        slower <= faster,
    ensures
        lts_table(slower, cycleway_tag, oneway) <= lts_table(faster, cycleway_tag, oneway),
{
}

/// A street with a buffered dedicated cycleway is at level 1 whatever its speed and
/// direction, and it is never more stressful than any other facility.
pub proof fn lemma_dedicated_with_buffer_always_lts1(
    speed_mph: u8,
    cycleway_tag: CyclewayTag,
    oneway: bool,
)
    ensures
        lts_table(speed_mph, CyclewayTag::DedicatedWithBuffer, oneway) == MIN_LTS,
        lts_table(speed_mph, CyclewayTag::DedicatedWithBuffer, oneway) <= lts_table(
            speed_mph,
            cycleway_tag,
            oneway,
        ),
{
}

} // verus!
