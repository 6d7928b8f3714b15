//! GTFS-Flex zone identifiers and the errors of zonal modeling.
use vstd::prelude::*;

use crate::text::{decimal, push_decimal, push_str, string_of};

verus! {

/// Errors of reading and building the zonal model.
#[derive(Clone, Debug, PartialEq, Eq)]
pub enum ZoneError {
    /// a file could not be read; `source` is the reader's error text
    Read { path: String, source: String },
    Parse { path: String, message: String },
    Deserialize { col: String, path: String, message: String },
    Build(String),
}

/// The message of a zonal modeling error.
pub open spec fn zone_error_message(e: ZoneError) -> Seq<char> {
    match e {
        ZoneError::Read { path, source } => "failure reading file from "@ + path@ + ": "@
            + source@,
        ZoneError::Parse { path, message } => "failed to parse '"@ + path@ + "' due to: "@
            + message@,
        ZoneError::Deserialize { col, path, message } => "failed to deserialize column "@ + col@
            + " in file '"@ + path@ + "' due to: "@ + message@,
        ZoneError::Build(m) => "failure building zonal model: "@ + m@,
    }
}

impl ZoneError {
    /// The error's message.
    pub fn message(&self) -> (r: String)
        ensures
            r@ == zone_error_message(*self),
    {
        let mut msg: Vec<char> = Vec::new();
        match self {
            ZoneError::Read { path, source } => {
                push_str(&mut msg, "failure reading file from ");
                push_str(&mut msg, path.as_str());
                push_str(&mut msg, ": ");
                push_str(&mut msg, source.as_str());
            },
            ZoneError::Parse { path, message } => {
                push_str(&mut msg, "failed to parse '");
                push_str(&mut msg, path.as_str());
                push_str(&mut msg, "' due to: ");
                push_str(&mut msg, message.as_str());
            },
            ZoneError::Deserialize { col, path, message } => {
                push_str(&mut msg, "failed to deserialize column ");
                push_str(&mut msg, col.as_str());
                push_str(&mut msg, " in file '");
                push_str(&mut msg, path.as_str());
                push_str(&mut msg, "' due to: ");
                push_str(&mut msg, message.as_str());
            },
            ZoneError::Build(m) => {
                push_str(&mut msg, "failure building zonal model: ");
                push_str(&mut msg, m.as_str());
            },
        }
        string_of(&msg)
    }
}

/// The pattern a zone id must match: a hyphen-delimited sequence of strings of the
/// form `{agency_id}-{route_id}-{trip_id}-{location_id}`.
pub const ZONE_ID_REGEX_LITERAL: &'static str = ".+-.+-.+-.+";

/// The anchored form of [`ZONE_ID_REGEX_LITERAL`] that a whole id must match.
pub const ZONE_ID_REGEX_ANCHORED: &'static str = "^.+-.+-.+-.+$";

/// The texts that [`ZONE_ID_REGEX_ANCHORED`] matches: no line break (a `.` matches any
/// character but `\n`), and three hyphens that split the text into four non-empty
/// parts.
pub open spec fn zone_id_shape(t: Seq<char>) -> bool {
    &&& forall|i: int| 0 <= i < t.len() ==> t[i] != '\n'
    &&& exists|a: int, b: int, c: int|
        0 < a && a + 1 < b && b + 1 < c && c + 1 < t.len() && #[trigger] t[a] == '-' && #[trigger] t[b]
            == '-' && #[trigger] t[c] == '-'
}

/// `regex::Regex::new` on the anchored zone id pattern, which compiles, then
/// `Regex::is_match`: `^.+-.+-.+-.+$` matches a whole text exactly when it is of
/// [`zone_id_shape`] (the anchors hold at the ends of the text only; `.` is any
/// character but a line feed).
#[verifier::external_body]
fn zone_id_pattern_matches(text: &str) -> (r: bool)
    ensures
        r == zone_id_shape(text@),
{
    match regex::Regex::new(ZONE_ID_REGEX_ANCHORED) {
        Ok(re) => re.is_match(text),
        Err(_) => false,
    }
}

/// The message of a string that is not a zone id.
pub open spec fn invalid_zone_id_message(value: Seq<char>) -> Seq<char> {
    "invalid zone id '"@ + value + "'; expected format matching '.+-.+-.+-.+'"@
}

/// Represents a zone in a GTFS-Flex agency. The meaning of the zone value depends on
/// the service type of the agency.
#[derive(Clone, Debug, PartialEq, Eq, PartialOrd, Ord, Hash, Default)]
pub struct ZoneId(String);

impl View for ZoneId {
    type V = Seq<char>;

    closed spec fn view(&self) -> Seq<char> {
        self.0@
    }
}

impl ZoneId {
    /// The id `{agency_id}-{route_id}-{trip_id}-{location_id}`.
    pub fn from_full_namespace(agency_id: &str, route_id: &str, trip_id: &str, location_id: &str) -> (r:
        ZoneId)
        ensures
            r@ == agency_id@ + "-"@ + route_id@ + "-"@ + trip_id@ + "-"@ + location_id@,
    {
        let mut cs: Vec<char> = Vec::new();
        push_str(&mut cs, agency_id);
        push_str(&mut cs, "-");
        push_str(&mut cs, route_id);
        push_str(&mut cs, "-");
        push_str(&mut cs, trip_id);
        push_str(&mut cs, "-");
        push_str(&mut cs, location_id);
        ZoneId(string_of(&cs))
    }

    /// The id holding `value` if `is_match` says that it matches the zone id
    /// pattern; a `Build` error naming it otherwise.
    pub fn from_pattern_check(value: &str, is_match: bool) -> (r: Result<ZoneId, ZoneError>)
        ensures
            is_match ==> (r matches Ok(z) && z@ == value@),
            !is_match ==> (r matches Err(ZoneError::Build(m)) && m@ == invalid_zone_id_message(
                value@,
            )),
    {
        if is_match {
            Ok(ZoneId(value.to_owned()))
        } else {
            let mut msg: Vec<char> = Vec::new();
            push_str(&mut msg, "invalid zone id '");
            push_str(&mut msg, value);
            push_str(&mut msg, "'; expected format matching '");
            push_str(&mut msg, ZONE_ID_REGEX_LITERAL);
            push_str(&mut msg, "'");
            proof {
                reveal_strlit(".+-.+-.+-.+");
                reveal_strlit("invalid zone id '");
                reveal_strlit("'; expected format matching '.+-.+-.+-.+'");
                reveal_strlit("'; expected format matching '");
                reveal_strlit("'");
                assert(msg@ =~= invalid_zone_id_message(value@));
            }
            Err(ZoneError::Build(string_of(&msg)))
        }
    }

    /// Parses a zone id: `value` must match `^.+-.+-.+-.+$`, that is be of
    /// [`zone_id_shape`].
    pub fn try_from_str(value: &str) -> (r: Result<ZoneId, ZoneError>)
        ensures
            zone_id_shape(value@) ==> (r matches Ok(z) && z@ == value@),
            !zone_id_shape(value@) ==> (r matches Err(ZoneError::Build(m)) && m@
                == invalid_zone_id_message(value@)),
    {
        let is_match = zone_id_pattern_matches(value);
        ZoneId::from_pattern_check(value, is_match)
    }

    /// The id as text.
    pub fn as_str(&self) -> (r: &str)
        ensures
            r@ == self@,
    {
        self.0.as_str()
    }

    /// The id as text.
    pub fn to_string(&self) -> (r: String)
        ensures
            r@ == self@,
    {
        self.0.clone()
    }

    /// The id holding a text already known to be a zone id, such as an entry of a
    /// zone enumeration.
    pub(crate) fn from_known(value: String) -> (r: ZoneId)
        ensures
            r@ == value@,
    {
        ZoneId(value)
    }

    /// Whether two ids hold the same text.
    pub fn same_as(&self, other: &ZoneId) -> (r: bool)
        ensures
            r == (self@ == other@),
    {
        self.0 == other.0
    }

    /// A copy of the id.
    pub fn duplicate(&self) -> (r: ZoneId)
        ensures
            r@ == self@,
    {
        ZoneId(self.0.clone())
    }
}

/// The message of row `idx` of a zone id file that holds no zone id.
pub open spec fn bad_row_message(idx: nat, row: Seq<char>) -> Seq<char> {
    "failure decoding ZoneId at row "@ + decimal(idx) + ". error: "@ + "failure building zonal model: "@
        + invalid_zone_id_message(row)
}

/// Parses row `idx` of the zone id file; the message naming the row when it holds no
/// zone id, which the file's reader reports as an `InvalidData` I/O error.
pub fn parse_zone_id(idx: usize, row: String) -> (r: Result<ZoneId, String>)
    ensures
        zone_id_shape(row@) ==> (r matches Ok(z) && z@ == row@),
        !zone_id_shape(row@) ==> (r matches Err(m) && m@ == bad_row_message(idx as nat, row@)),
{
    match ZoneId::try_from_str(row.as_str()) {
        Ok(z) => Ok(z),
        Err(e) => {
            let mut msg: Vec<char> = Vec::new();
            push_str(&mut msg, "failure decoding ZoneId at row ");
            push_decimal(&mut msg, idx as u64);
            push_str(&mut msg, ". error: ");
            let shown = e.message();
            push_str(&mut msg, shown.as_str());
            assert(msg@ =~= bad_row_message(idx as nat, row@));
            Err(string_of(&msg))
        },
    }
}

/// A zone id built from four non-empty parts without line breaks parses back: the
/// parts joined by hyphens are of [`zone_id_shape`], so [`ZoneId::try_from_str`]
/// accepts the text of [`ZoneId::from_full_namespace`].
pub proof fn lemma_full_namespace_is_zone_id(a: Seq<char>, r: Seq<char>, t: Seq<char>, l: Seq<char>)
    requires
        a.len() > 0,
        r.len() > 0,
        t.len() > 0,
        l.len() > 0,
        forall|i: int| 0 <= i < a.len() ==> a[i] != '\n',
        forall|i: int| 0 <= i < r.len() ==> r[i] != '\n',
        forall|i: int| 0 <= i < t.len() ==> t[i] != '\n',
        forall|i: int| 0 <= i < l.len() ==> l[i] != '\n',
    ensures
        zone_id_shape(a + "-"@ + r + "-"@ + t + "-"@ + l),
{
    reveal_strlit("-");
    let s = a + "-"@ + r + "-"@ + t + "-"@ + l;
    let x = a.len() as int;
    let y = x + 1 + r.len();
    let z = y + 1 + t.len();
    assert(s.len() == z + 1 + l.len());
    assert(s[x] == '-');
    assert(s[y] == '-');
    assert(s[z] == '-');
    assert forall|i: int| 0 <= i < s.len() implies s[i] != '\n' by {
        if i < x {
            assert(s[i] == a[i]);
        } else if i == x || i == y || i == z {
        } else if i < y {
            assert(s[i] == r[i - x - 1]);
        } else if i < z {
            assert(s[i] == t[i - y - 1]);
        } else {
            assert(s[i] == l[i - z - 1]);
        }
    }
}

} // verus!
