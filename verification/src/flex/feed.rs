//! The rows of a GTFS-Flex feed's text files that the import reads, and the import's
//! command line.
use vstd::prelude::*;

verus! {

/// single row from agency.txt in a GTFS-Flex feed
#[derive(Clone, Debug)]
pub struct Agency {
    /// unique agency identifier
    pub agency_id: Option<String>,
    /// agency URL
    pub _agency_url: Option<String>,
    /// primary language used by the agency
    pub _agency_lang: Option<String>,
    /// full agency name
    pub _agency_name: Option<String>,
    /// agency phone number
    pub _agency_phone: Option<String>,
    /// agency timezone
    pub _agency_timezone: Option<String>,
    /// URL to fare information
    pub _agency_fare_url: Option<String>,
    /// text-to-speech version of agency name
    pub _tts_agency_name: Option<String>,
}

/// a single row from routes.txt in a GTFS-Flex feed
#[derive(Clone, Debug)]
pub struct Route {
    /// unique route identifier
    pub route_id: String,
    /// identifier for the transit agency
    pub agency_id: Option<String>,
}

/// a single row from trips.txt in a GTFS-Flex feed
#[derive(Clone, Debug)]
pub struct Trips {
    /// unique service identifier
    pub service_id: String,
    /// unique trip identifier
    pub trip_id: String,
}

/// The files of a processed GTFS-Flex dataset that a zone lookup is built from.
#[derive(Clone, Debug)]
pub struct ZoneLookupConfig {
    /// a file containing the complete list of GTFS-Flex zone ids enumerated by row number.
    /// each id must appear exactly once and should be a fully-qualified zone identifier.
    pub zone_ids_input_file: String,
    /// a processed collection of zone records
    pub zone_record_input_file: String,
    /// geometries for zones
    pub zone_geometry_input_file: String,
}

/// command line tool providing GTFS-Flex processing scripts
#[derive(Debug)]
pub struct Cli {
    pub command: Commands,
}

/// The commands of the GTFS-Flex tool.
#[derive(Debug)]
pub enum Commands {
    /// process GTFS-Flex feeds
    ProcessGtfsFlexFeeds(GtfsFLexCliArguments),
}

/// imports GTFS-Flex archives from a directory into a BAMBAM-supported file
/// format for use in route planning.
#[derive(Clone, Debug)]
pub struct GtfsFLexCliArguments {
    /// directory containing GTFS-Flex feeds to process
    pub input_directory: String,
    /// location to write the resulting dataset.
    pub output_directory: String,
    /// date for which to process GTFS-Flex feeds (format: YYYYMMDD)
    pub date_requested: String,
}

} // verus!
