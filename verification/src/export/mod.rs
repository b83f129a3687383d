//! Turning query results into CSV, SQL and JSON text.

pub mod csv_export;
pub mod json_export;
pub mod sql_export;

use vstd::prelude::*;

verus! {

/// The text formats a result can be exported to.
#[derive(Debug, Clone, Copy, PartialEq, Eq, Structural)]
pub enum ExportFormat {
    Csv,
    Sql,
    Json,
}

/// Errors of an export, each with the message of its cause.
#[derive(Debug, Clone, PartialEq, Eq)]
pub enum ExportError {
    Io(String),
    Csv(String),
    Json(String),
}

} // verus!
