//! The query editor tab: the last result or error, whether a query runs, and
//! the history of what ran.

use vstd::prelude::*;
use vstd::string::StrSliceExecFns;
use crate::db::types::QueryResult;
use crate::ui::sql_editor::{buffer_wf, SqlEditor};
use vstd::utf8::*;
use crate::query::history::{entries_after_add, HistoryEntry, QueryHistory, DEFAULT_MAX_ENTRIES};
use crate::strings::{concat2, decimal, trim, trimmed, u64_to_decimal};

verus! {

/// What the editor tab holds apart from the text being edited.
pub struct EditorView {
    pub result: Option<QueryResult>,
    pub error: Option<String>,
    pub running: bool,
    pub history: QueryHistory,
    pub database: Option<String>,
}

/// The line above the results: the number of rows and the time the query took.
pub open spec fn results_info_text(rows: nat, ms: u64) -> Seq<char> {
    decimal(rows) + " rows \u{2014} "@ + decimal(ms as nat) + "ms"@
}

/// The line above the results.
pub fn results_info(result: &QueryResult) -> (r: String)
    ensures
        r@ == results_info_text(result.rows@.len(), result.execution_time_ms),
{
    let mut r = u64_to_decimal(result.rows.len() as u64);
    r.append(" rows \u{2014} ");
    let ms = u64_to_decimal(result.execution_time_ms);
    r.append(ms.as_str());
    r.append("ms");
    r
}

/// The SQL that Run executes: the selected text when there is a selection,
/// else the whole text.
pub fn sql_to_run(editor: &SqlEditor) -> (r: String)
    requires
        buffer_wf(editor@),
    ensures
        editor.selected_range.0 < editor.selected_range.1 ==> r@ == decode_utf8(
            encode_utf8(editor.content@).subrange(editor.selected_range.0 as int, editor.selected_range.1 as int)),
        editor.selected_range.0 >= editor.selected_range.1 ==> r@ == editor.content@,
{
    match editor.selected_sql() {
        Some(s) => crate::strings::to_owned_string(s),
        None => editor.content.clone(),
    }
}

/// How a query error is shown: "Error: " and the message.
pub fn error_line(message: &str) -> (r: String)
    ensures
        r@ == "Error: "@ + message@,
{
    concat2("Error: ", message)
}

impl EditorView {
    /// An editor on `database` with no result, no error and an empty history.
    pub fn new(database: Option<String>) -> (r: EditorView)
        ensures
            r.result is None,
            r.error is None,
            !r.running,
            r.history.entries_spec().len() == 0,
            r.history.max_spec() == DEFAULT_MAX_ENTRIES,
            r.database == database,
    {
        EditorView { result: None, error: None, running: false, history: QueryHistory::new(), database }
    }

    /// Starts running `sql` when it is not blank and a connection exists: the
    /// previous result and error clear. Says whether it started.
    pub fn begin_run(&mut self, sql: &str, connected: bool) -> (r: bool)
        ensures
            r == (trimmed(sql@).len() > 0 && connected),
            r ==> final(self).running && final(self).error is None && final(self).result is None,
            !r ==> final(self).running == old(self).running && final(self).error == old(self).error
                && final(self).result == old(self).result,
            final(self).history == old(self).history,
            final(self).database == old(self).database,
    {
        if trim(sql).unicode_len() == 0 || !connected {
            return false;
        }
        self.running = true;
        self.error = None;
        self.result = None;
        true
    }

    /// Shows the result of `sql`, which goes into the history as a success
    /// with the result's execution time.
    pub fn set_result(&mut self, sql: String, result: QueryResult)
        ensures
            final(self).result == Some(result),
            final(self).error is None,
            !final(self).running,
            final(self).history.max_spec() == old(self).history.max_spec(),
            exists|t: i64| final(self).history.entries_spec() == entries_after_add(
                old(self).history.entries_spec(),
                old(self).history.max_spec(),
                HistoryEntry { sql, timestamp: t, execution_time_ms: result.execution_time_ms, success: true },
            ),
            final(self).database == old(self).database,
    {
        self.history.add(sql, result.execution_time_ms, true);
        self.result = Some(result);
        self.error = None;
        self.running = false;
    }

    /// Shows why `sql` failed; it goes into the history as a failure taking no time.
    pub fn set_error(&mut self, sql: String, error: String)
        ensures
            final(self).error == Some(error),
            final(self).result is None,
            !final(self).running,
            final(self).history.max_spec() == old(self).history.max_spec(),
            exists|t: i64| final(self).history.entries_spec() == entries_after_add(
                old(self).history.entries_spec(),
                old(self).history.max_spec(),
                HistoryEntry { sql, timestamp: t, execution_time_ms: 0, success: false },
            ),
            final(self).database == old(self).database,
    {
        self.history.add(sql, 0, false);
        self.error = Some(error);
        self.result = None;
        self.running = false;
    }

    /// Shows why the query could not be formatted.
    pub fn set_format_error(&mut self, message: String)
        ensures
            final(self).error == Some(message),
            final(self).result is None,
            !final(self).running,
            final(self).history == old(self).history,
            final(self).database == old(self).database,
    {
        self.error = Some(message);
        self.result = None;
        self.running = false;
    }
}

} // verus!
