//! Condenses the JSON report of a multi-host command run into a short,
//! deduplicated, filtered summary.

pub mod filter;
pub mod group;
pub mod json;
pub mod normalize;
pub mod record;
pub mod report;
pub mod sanitize;
pub mod table;

pub use filter::{filter_groups, Filter, FilterReport, Suppression};
pub use group::get_compressed;
pub use json::JsonValue;
pub use normalize::{get_results, ResultError};
pub use record::{MinionResult, Retcode};
pub use report::{parse_value, read_report, ReportError};
pub use sanitize::cleanup_input_data;
pub use table::FailureTable;
