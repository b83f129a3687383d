//! The state and decisions behind the application's views.

pub mod app_view;
pub mod connection_dialog;
pub mod editor_view;
pub mod filter_panel;
pub mod schema_view;
pub mod sidebar;
pub mod sql_editor;
pub mod tab_bar;
pub mod table_view;
