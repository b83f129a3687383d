//! Query-side logic: filters, history, highlighting, formatting and SQL building.

pub mod filter;
pub mod format;
pub mod highlight;
pub mod history;
pub mod sql_build;
