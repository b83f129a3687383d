//! QueryBox core: the text, SQL and data logic of a database client, verified.

pub mod chars;
pub mod connection;
pub mod db;
pub mod export;
pub mod laws;
pub mod query;
pub mod strings;
pub mod text_motion;
pub mod ui;
