//! Why a table could not be read.
use vstd::prelude::*;

verus! {

#[verifier::external_type_specification]
#[verifier::external_body]
pub struct ExCsvError(csv::Error);

#[verifier::external_type_specification]
#[verifier::external_body]
pub struct ExJsonError(serde_json::Error);

/// A matrix-literal input with no bracketed region.
#[derive(Debug)]
pub struct ParseMTableError;

/// A failed decode, tagged with the format it came from.
#[derive(Debug)]
pub enum ParseTableError {
    Csv(csv::Error),
    Json(serde_json::Error),
    M(ParseMTableError),
}

} // verus!
