//! Database-facing types and the logic that does not need a live connection.

pub mod catalog;
pub mod datetime;
pub mod types;

use vstd::prelude::*;
use crate::strings::concat2;

verus! {

/// Errors of the database layer.
#[derive(Debug, Clone, PartialEq, Eq)]
pub enum DbError {
    Connection(String),
    Query(String),
    NotConnected,
    Other(String),
}

impl DbError {
    /// The text that the error is shown with.
    pub open spec fn message_spec(&self) -> Seq<char> {
        match self {
            DbError::Connection(m) => "Connection failed: "@ + m@,
            DbError::Query(m) => "Query failed: "@ + m@,
            DbError::NotConnected => "Not connected"@,
            DbError::Other(m) => m@,
        }
    }

    /// The text that the error is shown with.
    pub fn message(&self) -> (r: String)
        ensures
            r@ == self.message_spec(),
    {
        match self {
            DbError::Connection(m) => concat2("Connection failed: ", m.as_str()),
            DbError::Query(m) => concat2("Query failed: ", m.as_str()),
            DbError::NotConnected => String::from_str("Not connected"),
            DbError::Other(m) => m.clone(),
        }
    }
}

} // verus!
