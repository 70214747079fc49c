//! From a report's raw text to its records.

use vstd::prelude::*;
use crate::json::{parse_json, parsed_json, JsonValue};
use crate::normalize::{get_results, report_records, ResultError};
use crate::record::{views, MinionResult};
use crate::table::FailureTable;

verus! {

/// Why a report's text gave no records.
#[derive(Debug, Clone, Copy, PartialEq, Eq, Structural)]
pub enum ReportError {
    /// The text is not JSON.
    NotJson,
    /// The JSON is not a report that can be read.
    Results(ResultError),
}

/// The JSON value of a text, or `None` where it is not JSON.
pub fn parse_value(text: &str) -> (r: Option<JsonValue>)
    ensures
        r == parsed_json(text@),
{
    match parse_json(text) {
        Ok(v) => Some(v),
        Err(_) => None,
    }
}

/// The records of a sanitized report text and its side table: those that
/// [`get_results`] gives for the JSON that the text holds.
pub fn read_report(text: &str, failed_minions: &FailureTable) -> (r: Result<Vec<MinionResult>, ReportError>)
    ensures
        match parsed_json(text@) {
            None => r == Err::<Vec<MinionResult>, ReportError>(ReportError::NotJson),
            Some(v) => match report_records(v, failed_minions@) {
                Ok(rs) => r matches Ok(got) && views(got@) == rs,
                Err(e) => r == Err::<Vec<MinionResult>, ReportError>(ReportError::Results(e)),
            },
        },
{
    let value = match parse_value(text) {
        Some(v) => v,
        None => return Err(ReportError::NotJson),
    };
    match get_results(&value, failed_minions) {
        Ok(rs) => Ok(rs),
        Err(e) => Err(ReportError::Results(e)),
    }
}

} // verus!
