//! Data formats and the error type.

use vstd::prelude::*;

verus! {

/// The external formats of geographic input data.
#[derive(Clone, Copy, Debug, PartialEq, Eq, Structural)]
pub enum DataFormat {
    OsmJson,
    GeoJson,
}

impl DataFormat {
    /// The name of the format, as shown to a user.
    pub fn name(&self) -> (r: &'static str) {
        match self {
            DataFormat::OsmJson => "osm json",
            DataFormat::GeoJson => "geojson",
        }
    }
}

/// The errors of this crate.
#[derive(Debug)]
pub enum AppError {
    /// An error in a query typed by the user, found before anything is fetched.
    InputSyntax { message: String },
    /// A failure to read or fetch data.
    Io { url: Option<String>, status: Option<u16>, message: String },
    /// Data that is not in the shape its format requires.
    DataSyntax {
        format: DataFormat,
        line: Option<usize>,
        character: Option<usize>,
        message: String,
    },
    /// Well-formed data that lacks what is needed to go on.
    MissingData { message: String },
}

#[verifier::external_type_specification]
#[verifier::external_body]
pub struct ExJsonError(serde_json::Error);

/// Relies on `serde_json::Error::line`: the line at which parsing failed.
#[verifier::external_body]
fn json_error_line(e: &serde_json::Error) -> usize {
    e.line()
}

/// Relies on `serde_json::Error::column`: the column at which parsing failed.
#[verifier::external_body]
fn json_error_column(e: &serde_json::Error) -> usize {
    e.column()
}

impl AppError {
    /// A syntax error of a JSON document in the given format, with its
    /// position.
    pub fn from_json_error(value: serde_json::Error, format: DataFormat) -> (r: AppError)
        ensures
            r matches AppError::DataSyntax { format: f, line: Some(_), character: Some(_), .. } && f == format,
    {
        AppError::DataSyntax {
            format,
            line: Some(json_error_line(&value)),
            character: Some(json_error_column(&value)),
            message: "Syntax error in JSON".to_string(),
        }
    }
}

} // verus!
