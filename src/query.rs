//! Queries for loading geographic data.

use vstd::prelude::*;
use vstd::string::{StrSliceExecFns, StringExecFns};
use crate::common::{AppError, DataFormat};
use crate::text::str_eq;

verus! {

/// A query that can be executed to load geographic data. Neither its syntax
/// nor the existence of what it names has been checked.
pub enum DataQuery {
    /// A query in Overpass QL, whose output is OSM JSON.
    OverpassQL { value: String },
    /// A file on the local file system.
    File { format: DataFormat, file_path: String },
}

/// The kinds of query that a user can type.
#[derive(Clone, Copy, Debug, PartialEq, Eq, Structural)]
pub enum InputQueryType {
    City,
    File,
    Overpass,
}

/// The Overpass QL text before the city name in a city query.
pub const CITY_QUERY_HEAD: &'static str = "[out:json];\n                    area[name=\"";

/// The Overpass QL text after the city name in a city query.
pub const CITY_QUERY_TAIL: &'static str = "\"]->.searchArea;\n                    (\n                        way[\"highway\"](area.searchArea);\n                        way[\"building\"](area.searchArea);\n                        way[\"landuse\"](area.searchArea);\n                        way[\"natural\"=\"water\"](area.searchArea);\n                        way[\"waterway\"~\"river|stream|canal|ditch\"](area.searchArea);\n                    )->.result;\n                    (.result; .result >;);\n                    out body;";

/// Whether a string holds a double quote.
pub fn contains_quote(s: &str) -> (r: bool)
    ensures
        r == s@.contains('"'),
{
    let n = s.unicode_len();
    let mut i: usize = 0;
    while i < n
        invariant
            n == s@.len(),
            i <= n,
            forall|j: int| 0 <= j < i ==> s@[j] != '"',
        decreases n - i,
    {
        if s.get_char(i) == '"' {
            assert(s@[i as int] == '"');
            return true;
        }
        i += 1;
    }
    false
}

/// The data format of a file, by its extension: `json` is OSM JSON,
/// `geojson` is GeoJSON; any other extension, or none, is refused.
pub fn format_of_extension(extension: Option<&str>) -> (r: Result<DataFormat, AppError>)
    ensures
        match extension {
            Some(e) => if e@ == "json"@ {
                r == Ok::<DataFormat, AppError>(DataFormat::OsmJson)
            } else if e@ == "geojson"@ {
                r == Ok::<DataFormat, AppError>(DataFormat::GeoJson)
            } else {
                r matches Err(AppError::InputSyntax { .. })
            },
            None => r matches Err(AppError::InputSyntax { .. }),
        },
{
    match extension {
        Some(e) => {
            if str_eq(e, "json") {
                Ok(DataFormat::OsmJson)
            } else if str_eq(e, "geojson") {
                Ok(DataFormat::GeoJson)
            } else {
                let mut message = String::from_str("unsupported file extension ");
                message.append(e);
                Err(AppError::InputSyntax { message })
            }
        },
        None => Err(AppError::InputSyntax { message: String::from_str("file without file extension") }),
    }
}

/// Relies on `Path::extension`: the extension of the file name of a path,
/// if it has one. How a path is split depends on the platform.
#[verifier::external_body]
fn path_extension(path: &str) -> (r: Option<String>) {
    match std::path::Path::new(path).extension() {
        Some(e) => Some(e.to_string_lossy().into_owned()),
        None => None,
    }
}

/// Converts a query typed by the user into a data query. A city name is
/// wrapped in an Overpass QL query for its roads, buildings, land use and
/// water, and may not hold a double quote; Overpass QL is taken as it is; a
/// file path takes its format from its extension.
pub fn parse_data_query(query_type: InputQueryType, string: &str) -> (r: Result<DataQuery, AppError>)
    ensures
        query_type == InputQueryType::City ==> {
            if string@.contains('"') {
                r matches Err(AppError::InputSyntax { .. })
            } else {
                r matches Ok(DataQuery::OverpassQL { value }) && value@ == CITY_QUERY_HEAD@ + string@
                    + CITY_QUERY_TAIL@
            }
        },
        query_type == InputQueryType::Overpass ==> (r matches Ok(DataQuery::OverpassQL { value })
            && value@ == string@),
        query_type == InputQueryType::File ==> match r {
            Ok(DataQuery::File { file_path, .. }) => file_path@ == string@,
            Ok(DataQuery::OverpassQL { .. }) => false,
            Err(e) => e matches AppError::InputSyntax { .. },
        },
{
    match query_type {
        InputQueryType::City => {
            if contains_quote(string) {
                return Err(AppError::InputSyntax { message: String::from_str("city query may not contain quotes") });
            }
            let mut value = String::from_str(CITY_QUERY_HEAD);
            value.append(string);
            value.append(CITY_QUERY_TAIL);
            Ok(DataQuery::OverpassQL { value })
        },
        InputQueryType::Overpass => Ok(DataQuery::OverpassQL { value: String::from_str(string) }),
        InputQueryType::File => {
            let extension = path_extension(string);
            let format = match &extension {
                Some(e) => format_of_extension(Some(e.as_str())),
                None => format_of_extension(None),
            };
            match format {
                Ok(format) => Ok(DataQuery::File { format, file_path: String::from_str(string) }),
                Err(e) => Err(e),
            }
        },
    }
}

} // verus!
