//! The state of a table view: the page of rows on show, paging, filters,
//! cell edits waiting to be saved, a new row being typed, and the requests
//! that saving raises.

use vstd::prelude::*;
use vstd::string::StrSliceExecFns;
use crate::db::types::{
    text_to_value, text_value, Column, ForeignKey, QueryResult, Value, ValueView,
};
use crate::query::filter::{all_ops, op_needs_value, Filter, FilterOp};
use crate::strings::{
    decimal, has_substring, parse_unsigned, str_contains, trim, trimmed, u128_to_decimal,
    parse_unsigned_decimal,
};

verus! {

/// A new value for one column of a row.
#[derive(Clone, Debug)]
pub struct CellEdit {
    pub column: String,
    pub new_value: Value,
}

/// The edits of one row, located by its primary key.
#[derive(Clone, Debug)]
pub struct RowUpdate {
    pub database: String,
    pub table: String,
    pub pk_columns: Vec<String>,
    pub pk_values: Vec<Value>,
    pub edits: Vec<CellEdit>,
}

/// A row to insert, as column names and values.
#[derive(Clone, Debug)]
pub struct NewRowInsert {
    pub database: String,
    pub table: String,
    pub column_values: Vec<(String, Value)>,
}

/// Whether the view shows the rows or the table's schema.
#[derive(Clone, Copy, Debug, PartialEq, Eq, Structural)]
pub enum ViewMode {
    Data,
    Schema,
}

/// A typed-in value for a cell, not saved yet.
#[derive(Clone, Debug)]
pub struct PendingEdit {
    pub row: usize,
    pub col: usize,
    pub text: String,
}

/// A typed-in value for a column of the new row.
#[derive(Clone, Debug)]
pub struct NewRowEdit {
    pub col: usize,
    pub text: String,
}

/// The rows per page.
pub const PAGE_SIZE: usize = 100;

/// What the table view holds.
pub struct TableView {
    pub database: String,
    pub table_name: String,
    pub columns: Vec<Column>,
    pub rows: Vec<Vec<Value>>,
    pub total_rows: Option<u64>,
    pub page: usize,
    pub page_size: usize,
    pub loading: bool,
    pub error: Option<String>,
    pub active_filters: Vec<Filter>,
    pub filter_form_visible: bool,
    pub filter_form_column_idx: usize,
    pub filter_form_op_idx: usize,
    pub column_dropdown_open: bool,
    pub op_dropdown_open: bool,
    pub pending_edits: Vec<PendingEdit>,
    pub editing_cell: Option<(usize, usize)>,
    pub save_error: Option<String>,
    pub new_row_active: bool,
    pub new_row_edits: Vec<NewRowEdit>,
    pub editing_new_row_col: Option<usize>,
    pub new_row_insert_error: Option<String>,
    pub new_row_dirty: bool,
    pub foreign_keys: Vec<ForeignKey>,
    pub view_mode: ViewMode,
}

// ── maps held as lists ────────────────────────────────────────────────────────

/// The pending edits as (row, column, text) triples.
pub open spec fn pending_view(es: Seq<PendingEdit>) -> Seq<(usize, usize, Seq<char>)> {
    es.map_values(|e: PendingEdit| (e.row, e.col, e.text@))
}

/// The new-row edits as (column, text) pairs.
pub open spec fn new_row_view(es: Seq<NewRowEdit>) -> Seq<(usize, Seq<char>)> {
    es.map_values(|e: NewRowEdit| (e.col, e.text@))
}

/// No cell occurs twice among the pending edits.
pub open spec fn cells_unique(es: Seq<(usize, usize, Seq<char>)>) -> bool {
    forall|i: int, j: int| 0 <= i < j < es.len() ==> !(#[trigger] es[i].0 == #[trigger] es[j].0 && es[i].1 == es[j].1)
}

/// No column occurs twice among the new-row edits.
pub open spec fn cols_unique(es: Seq<(usize, Seq<char>)>) -> bool {
    forall|i: int, j: int| 0 <= i < j < es.len() ==> #[trigger] es[i].0 != #[trigger] es[j].0
}

/// The pending edits after `text` is recorded for a cell: it replaces the
/// cell's earlier text, or is added at the end.
pub open spec fn pending_after_set(es: Seq<(usize, usize, Seq<char>)>, row: usize, col: usize, text: Seq<char>) -> Seq<(usize, usize, Seq<char>)> {
    if exists|i: int| 0 <= i < es.len() && (#[trigger] es[i]).0 == row && es[i].1 == col {
        let i = choose|i: int| 0 <= i < es.len() && (#[trigger] es[i]).0 == row && es[i].1 == col;
        es.update(i, (row, col, text))
    } else {
        es.push((row, col, text))
    }
}

/// The new-row edits after `text` is recorded for a column.
pub open spec fn new_row_after_set(es: Seq<(usize, Seq<char>)>, col: usize, text: Seq<char>) -> Seq<(usize, Seq<char>)> {
    if exists|i: int| 0 <= i < es.len() && (#[trigger] es[i]).0 == col {
        let i = choose|i: int| 0 <= i < es.len() && (#[trigger] es[i]).0 == col;
        es.update(i, (col, text))
    } else {
        es.push((col, text))
    }
}

/// The text recorded for a column of the new row, if any.
pub open spec fn new_row_text(es: Seq<(usize, Seq<char>)>, col: usize) -> Option<Seq<char>> {
    if exists|i: int| 0 <= i < es.len() && (#[trigger] es[i]).0 == col {
        let i = choose|i: int| 0 <= i < es.len() && (#[trigger] es[i]).0 == col;
        Some(es[i].1)
    } else {
        None
    }
}

/// The text pending for a cell, if any.
pub open spec fn pending_text(es: Seq<(usize, usize, Seq<char>)>, row: usize, col: usize) -> Option<Seq<char>> {
    if exists|i: int| 0 <= i < es.len() && (#[trigger] es[i]).0 == row && es[i].1 == col {
        let i = choose|i: int| 0 <= i < es.len() && (#[trigger] es[i]).0 == row && es[i].1 == col;
        Some(es[i].2)
    } else {
        None
    }
}

// ── paging ────────────────────────────────────────────────────────────────────

/// The last page (0-based) for a row count: `(total - 1) / page_size`, or 0
/// when the count is unknown or zero.
pub open spec fn max_page_of(total: Option<u64>, page_size: usize) -> int {
    match total {
        Some(t) => if t as usize == 0 { 0 } else { ((t as usize) - 1) / (page_size as int) },
        None => 0,
    }
}

/// The page a typed page number asks for: the 1-based number made 0-based and
/// capped at the last page.
pub open spec fn page_target(n: nat, max_page: int) -> int {
    let z = if n == 0 { 0 } else { n - 1 };
    if z <= max_page { z } else { max_page }
}

/// The toolbar's row range text: "first–last of total" when the row count is
/// known, else "n rows".
pub open spec fn row_info_text(page: usize, page_size: usize, shown: nat, total: Option<u64>) -> Seq<char> {
    match total {
        Some(t) => decimal((page * page_size + 1) as nat) + "\u{2013}"@
            + decimal((page * page_size + shown) as nat) + " of "@ + decimal(t as nat),
        None => decimal(shown) + " rows"@,
    }
}

/// The save button's text for a number of changes.
pub open spec fn save_label_text(n: nat) -> Seq<char> {
    if n == 1 { "Save 1 change"@ } else { "Save "@ + decimal(n) + " changes"@ }
}

/// What the toolbar shows apart from its fixed buttons.
pub struct ToolbarInfo {
    pub row_info: String,
    pub on_first_page: bool,
    pub on_last_page: bool,
    pub pending_count: usize,
    /// The save button's text, when there is something to save.
    pub save_label: Option<String>,
    pub has_multiple_pages: bool,
}

impl TableView {
    /// Well formed: pages are at least one row long, the chosen operator is one
    /// of the operators, no cell and no new-row column has two pending texts, and
    /// every value is well formed.
    pub open spec fn wf(&self) -> bool {
        &&& self.page_size > 0
        &&& self.filter_form_op_idx < all_ops().len()
        &&& cells_unique(pending_view(self.pending_edits@))
        &&& cols_unique(new_row_view(self.new_row_edits@))
        &&& forall|i: int, j: int| 0 <= i < self.rows@.len() && 0 <= j < self.rows@[i]@.len()
            ==> (#[trigger] self.rows@[i]@[j]).wf()
    }

    /// The last page (0-based).
    pub open spec fn last_page(&self) -> int {
        max_page_of(self.total_rows, self.page_size)
    }

    /// A view of `table_name` in `database`, loading, on its first page, with
    /// no filters and nothing edited.
    pub fn new(database: String, table_name: String) -> (r: TableView)
        ensures
            r.wf(),
            r.database == database,
            r.table_name == table_name,
            r.columns@.len() == 0,
            r.rows@.len() == 0,
            r.total_rows is None,
            r.page == 0,
            r.page_size == PAGE_SIZE,
            r.loading,
            r.error is None,
            r.active_filters@.len() == 0,
            !r.filter_form_visible,
            r.filter_form_column_idx == 0,
            r.filter_form_op_idx == 0,
            !r.column_dropdown_open,
            !r.op_dropdown_open,
            r.pending_edits@.len() == 0,
            r.editing_cell is None,
            r.save_error is None,
            !r.new_row_active,
            r.new_row_edits@.len() == 0,
            r.editing_new_row_col is None,
            r.new_row_insert_error is None,
            !r.new_row_dirty,
            r.foreign_keys@.len() == 0,
            r.view_mode == ViewMode::Data,
    {
        TableView {
            database,
            table_name,
            columns: Vec::new(),
            rows: Vec::new(),
            total_rows: None,
            page: 0,
            page_size: PAGE_SIZE,
            loading: true,
            error: None,
            active_filters: Vec::new(),
            filter_form_visible: false,
            filter_form_column_idx: 0,
            filter_form_op_idx: 0,
            column_dropdown_open: false,
            op_dropdown_open: false,
            pending_edits: Vec::new(),
            editing_cell: None,
            save_error: None,
            new_row_active: false,
            new_row_edits: Vec::new(),
            editing_new_row_col: None,
            new_row_insert_error: None,
            new_row_dirty: false,
            foreign_keys: Vec::new(),
            view_mode: ViewMode::Data,
        }
    }

    /// Shows a freshly loaded page: its columns, rows and the row count; clears
    /// the error, every edit, the cell being edited and the new row.
    pub fn set_data(&mut self, result: QueryResult, total_rows: Option<u64>)
        requires
            old(self).wf(),
            result.wf(),
        ensures
            final(self).wf(),
            final(self).columns@ == result.columns@,
            final(self).rows@ == result.rows@,
            final(self).total_rows == total_rows,
            !final(self).loading,
            final(self).error is None,
            final(self).pending_edits@.len() == 0,
            final(self).editing_cell is None,
            final(self).save_error is None,
            !final(self).new_row_active,
            final(self).new_row_edits@.len() == 0,
            final(self).editing_new_row_col is None,
            final(self).new_row_insert_error is None,
            !final(self).new_row_dirty,
            final(self).page == old(self).page,
            final(self).active_filters@ == old(self).active_filters@,
            final(self).foreign_keys@ == old(self).foreign_keys@,
            final(self).view_mode == old(self).view_mode,
            final(self).filter_form_visible == old(self).filter_form_visible,
    {
        self.columns = result.columns;
        self.rows = result.rows;
        self.total_rows = total_rows;
        self.loading = false;
        self.error = None;
        self.pending_edits = Vec::new();
        self.editing_cell = None;
        self.save_error = None;
        self.new_row_active = false;
        self.new_row_edits = Vec::new();
        self.editing_new_row_col = None;
        self.new_row_insert_error = None;
        self.new_row_dirty = false;
    }

    /// Shows a load error.
    pub fn set_error(&mut self, error: String)
        requires
            old(self).wf(),
        ensures
            final(self).wf(),
            *final(self) == (TableView { error: Some(error), loading: false, ..*old(self) }),
    {
        self.error = Some(error);
        self.loading = false;
    }

    /// Shows why the new row could not be inserted.
    pub fn set_insert_error(&mut self, error: String)
        requires
            old(self).wf(),
        ensures
            final(self).wf(),
            *final(self) == (TableView { new_row_insert_error: Some(error), new_row_dirty: false, ..*old(self) }),
    {
        self.new_row_insert_error = Some(error);
        self.new_row_dirty = false;
    }

    /// Sets the table's foreign keys.
    pub fn set_foreign_keys(&mut self, fks: Vec<ForeignKey>)
        requires
            old(self).wf(),
        ensures
            final(self).wf(),
            *final(self) == (TableView { foreign_keys: fks, ..*old(self) }),
    {
        self.foreign_keys = fks;
    }

    /// Marks the view as loading and clears the error.
    pub fn set_loading(&mut self)
        requires
            old(self).wf(),
        ensures
            final(self).wf(),
            *final(self) == (TableView { loading: true, error: None, ..*old(self) }),
    {
        self.loading = true;
        self.error = None;
    }

    /// The last page (0-based).
    pub fn max_page(&self) -> (r: usize)
        requires
            self.page_size > 0,
        ensures
            r == self.last_page(),
    {
        match self.total_rows {
            Some(t) => {
                let tu = t as usize;
                if tu == 0 { 0 } else { (tu - 1) / self.page_size }
            },
            None => 0,
        }
    }

    /// Jumps to the page typed into the page field (1-based, surrounding
    /// whitespace ignored, capped at the last page). Text that is not a number
    /// changes nothing and gives `None`; otherwise the result says whether the
    /// page changed, and the field is to be cleared.
    pub fn go_to_page(&mut self, input: &str) -> (r: Option<bool>)
        requires
            old(self).wf(),
        ensures
            final(self).wf(),
            match parse_unsigned(trimmed(input@), usize::MAX as nat) {
                None => r is None && *final(self) == *old(self),
                Some(n) => {
                    let target = page_target(n, old(self).last_page());
                    &&& r == Some(target != old(self).page)
                    &&& *final(self) == (TableView { page: target as usize, ..*old(self) })
                },
            },
    {
        let t = trim(input);
        let n = match parse_unsigned_decimal(t, usize::MAX as u64) {
            Some(n) => n as usize,
            None => return None,
        };
        let z = if n == 0 { 0 } else { n - 1 };
        let max_page = self.max_page();
        let target = if z <= max_page { z } else { max_page };
        if target != self.page {
            self.page = target;
            Some(true)
        } else {
            Some(false)
        }
    }

    /// Moves to the next page unless on the last; says whether it moved.
    pub fn go_next_page(&mut self) -> (r: bool)
        requires
            old(self).wf(),
        ensures
            final(self).wf(),
            r == (old(self).page < old(self).last_page()),
            *final(self) == (if r { TableView { page: (old(self).page + 1) as usize, ..*old(self) } } else { *old(self) }),
    {
        let max_page = self.max_page();
        if self.page < max_page {
            self.page = self.page + 1;
            true
        } else {
            false
        }
    }

    /// Moves to the previous page unless on the first; says whether it moved.
    pub fn go_prev_page(&mut self) -> (r: bool)
        requires
            old(self).wf(),
        ensures
            final(self).wf(),
            r == (old(self).page > 0),
            *final(self) == (if r { TableView { page: (old(self).page - 1) as usize, ..*old(self) } } else { *old(self) }),
    {
        if self.page > 0 {
            self.page = self.page - 1;
            true
        } else {
            false
        }
    }

    /// The toolbar's texts and flags.
    pub fn toolbar_info(&self) -> (r: ToolbarInfo)
        requires
            self.wf(),
        ensures
            r.row_info@ == row_info_text(self.page, self.page_size, self.rows@.len(), self.total_rows),
            r.on_first_page == (self.page == 0),
            r.on_last_page == (match self.total_rows {
                Some(t) => (self.page + 1) * self.page_size >= t as usize,
                None => true,
            }),
            r.pending_count == (if self.pending_edits@.len() < usize::MAX {
                self.pending_edits@.len() + (if self.editing_cell is Some { 1int } else { 0int })
            } else {
                usize::MAX as int
            }),
            r.save_label == (if r.pending_count > 0 { Some(r.save_label->0) } else { None::<String> }),
            r.pending_count > 0 ==> r.save_label->0@ == save_label_text(r.pending_count as nat),
            r.has_multiple_pages == (match self.total_rows {
                Some(t) => t as usize > self.page_size,
                None => false,
            }),
    {
        let shown = self.rows.len();
        proof {
            let a = self.page as int;
            let b = self.page_size as int;
            assert(a * b <= 0xffff_ffff_ffff_ffff * 0xffff_ffff_ffff_ffff) by (nonlinear_arith)
                requires 0 <= a <= 0xffff_ffff_ffff_ffff, 0 <= b <= 0xffff_ffff_ffff_ffff;
            assert((a + 1) * b <= 0x1_0000_0000_0000_0000 * 0xffff_ffff_ffff_ffff) by (nonlinear_arith)
                requires 0 <= a <= 0xffff_ffff_ffff_ffff, 0 <= b <= 0xffff_ffff_ffff_ffff;
        }
        let row_info = match self.total_rows {
            Some(t) => {
                let first: u128 = (self.page as u128) * (self.page_size as u128) + 1;
                let last: u128 = (self.page as u128) * (self.page_size as u128) + (shown as u128);
                let mut s = u128_to_decimal(first);
                s.append("\u{2013}");
                let l = u128_to_decimal(last);
                s.append(l.as_str());
                s.append(" of ");
                let tt = u128_to_decimal(t as u128);
                s.append(tt.as_str());
                proof {
                    assert(s@ =~= row_info_text(self.page, self.page_size, shown as nat, self.total_rows));
                }
                s
            },
            None => {
                let mut s = u128_to_decimal(shown as u128);
                s.append(" rows");
                s
            },
        };
        let on_last_page = match self.total_rows {
            Some(t) => ((self.page as u128) + 1) * (self.page_size as u128) >= ((t as usize) as u128),
            None => true,
        };
        let extra: usize = if self.editing_cell.is_some() { 1 } else { 0 };
        let pending_count = if self.pending_edits.len() < usize::MAX { self.pending_edits.len() + extra } else { usize::MAX };
        let save_label = if pending_count == 0 {
            None
        } else if pending_count == 1 {
            Some(String::from_str("Save 1 change"))
        } else {
            let mut s = String::from_str("Save ");
            let d = u128_to_decimal(pending_count as u128);
            s.append(d.as_str());
            s.append(" changes");
            Some(s)
        };
        let has_multiple_pages = match self.total_rows {
            Some(t) => (t as usize) > self.page_size,
            None => false,
        };
        ToolbarInfo {
            row_info,
            on_first_page: self.page == 0,
            on_last_page,
            pending_count,
            save_label,
            has_multiple_pages,
        }
    }
}


// ── toggles and the filter form ───────────────────────────────────────────────

impl TableView {
    /// Shows the rows, or the schema; showing the schema closes the filter form
    /// and drops the new row.
    pub fn set_view_mode(&mut self, mode: ViewMode)
        requires
            old(self).wf(),
        ensures
            final(self).wf(),
            *final(self) == (match mode {
                ViewMode::Data => TableView { view_mode: mode, ..*old(self) },
                ViewMode::Schema => TableView {
                    view_mode: mode,
                    filter_form_visible: false,
                    new_row_active: false,
                    ..*old(self)
                },
            }),
    {
        self.view_mode = mode;
        match mode {
            ViewMode::Schema => {
                self.filter_form_visible = false;
                self.new_row_active = false;
            },
            ViewMode::Data => {},
        }
    }

    /// Opens or closes the filter form; either way its dropdowns close.
    pub fn toggle_filter_form(&mut self)
        requires
            old(self).wf(),
        ensures
            final(self).wf(),
            *final(self) == (TableView {
                filter_form_visible: !old(self).filter_form_visible,
                column_dropdown_open: false,
                op_dropdown_open: false,
                ..*old(self)
            }),
    {
        self.filter_form_visible = !self.filter_form_visible;
        self.column_dropdown_open = false;
        self.op_dropdown_open = false;
    }

    /// Opens or closes the column dropdown of the filter form (closing the other).
    pub fn toggle_column_dropdown(&mut self)
        requires
            old(self).wf(),
        ensures
            final(self).wf(),
            *final(self) == (TableView {
                column_dropdown_open: !old(self).column_dropdown_open,
                op_dropdown_open: false,
                ..*old(self)
            }),
    {
        self.column_dropdown_open = !self.column_dropdown_open;
        self.op_dropdown_open = false;
    }

    /// Opens or closes the operator dropdown of the filter form (closing the other).
    pub fn toggle_op_dropdown(&mut self)
        requires
            old(self).wf(),
        ensures
            final(self).wf(),
            *final(self) == (TableView {
                op_dropdown_open: !old(self).op_dropdown_open,
                column_dropdown_open: false,
                ..*old(self)
            }),
    {
        self.op_dropdown_open = !self.op_dropdown_open;
        self.column_dropdown_open = false;
    }

    /// Picks the filter form's column from the dropdown, which closes.
    pub fn select_filter_column(&mut self, idx: usize)
        requires
            old(self).wf(),
        ensures
            final(self).wf(),
            *final(self) == (TableView {
                filter_form_column_idx: idx,
                column_dropdown_open: false,
                ..*old(self)
            }),
    {
        self.filter_form_column_idx = idx;
        self.column_dropdown_open = false;
    }

    /// Picks the filter form's operator (an index into `FilterOp::all()`) from
    /// the dropdown, which closes.
    pub fn select_filter_op(&mut self, idx: usize)
        requires
            old(self).wf(),
            idx < all_ops().len(),
        ensures
            final(self).wf(),
            *final(self) == (TableView {
                filter_form_op_idx: idx,
                op_dropdown_open: false,
                ..*old(self)
            }),
    {
        self.filter_form_op_idx = idx;
        self.op_dropdown_open = false;
    }

    /// Closes the filter form and its dropdowns.
    pub fn cancel_filter_form(&mut self)
        requires
            old(self).wf(),
        ensures
            final(self).wf(),
            *final(self) == (TableView {
                filter_form_visible: false,
                column_dropdown_open: false,
                op_dropdown_open: false,
                ..*old(self)
            }),
    {
        self.filter_form_visible = false;
        self.column_dropdown_open = false;
        self.op_dropdown_open = false;
    }

    /// The operator the filter form has chosen.
    pub fn selected_op(&self) -> (r: FilterOp)
        requires
            self.wf(),
        ensures
            r == all_ops()[self.filter_form_op_idx as int],
    {
        let ops = FilterOp::all();
        ops[self.filter_form_op_idx]
    }

    /// The name shown on the filter form's column dropdown: the chosen
    /// column's name, or "—" when there is no such column.
    pub fn filter_column_label(&self) -> (r: String)
        ensures
            r@ == (if self.filter_form_column_idx < self.columns@.len() {
                self.columns@[self.filter_form_column_idx as int].name@
            } else {
                "\u{2014}"@
            }),
    {
        if self.filter_form_column_idx < self.columns.len() {
            self.columns[self.filter_form_column_idx].name.clone()
        } else {
            String::from_str("\u{2014}")
        }
    }

    /// Adds the filter the form describes: the chosen column and operator and,
    /// for an operator that compares against a value, the typed value, which
    /// must not be empty. On success the form closes and the view returns to
    /// its first page; the result says whether a filter was added.
    pub fn add_filter(&mut self, value_text: String) -> (r: bool)
        requires
            old(self).wf(),
        ensures
            final(self).wf(),
            r == (old(self).filter_form_column_idx < old(self).columns@.len()
                && (op_needs_value(all_ops()[old(self).filter_form_op_idx as int]) ==> value_text@.len() > 0)),
            !r ==> *final(self) == *old(self),
            r ==> {
                let op = all_ops()[old(self).filter_form_op_idx as int];
                let f = final(self).active_filters@.last();
                &&& final(self).active_filters@.len() == old(self).active_filters@.len() + 1
                &&& final(self).active_filters@.drop_last() == old(self).active_filters@
                &&& f.column == old(self).columns@[old(self).filter_form_column_idx as int].name
                &&& f.op == op
                &&& f.value == (if op_needs_value(op) { Some(value_text) } else { None })
                &&& *final(self) == (TableView {
                    active_filters: final(self).active_filters,
                    filter_form_visible: false,
                    page: 0,
                    ..*old(self)
                })
            },
    {
        if self.filter_form_column_idx >= self.columns.len() {
            return false;
        }
        let op = self.selected_op();
        let value = if op.needs_value() {
            if value_text.as_str().unicode_len() == 0 {
                return false;
            }
            Some(value_text)
        } else {
            None
        };
        let column = self.columns[self.filter_form_column_idx].name.clone();
        self.active_filters.push(Filter { column, op, value });
        self.filter_form_visible = false;
        self.page = 0;
        true
    }

    /// Removes the filter at `idx` and returns to the first page.
    pub fn remove_filter(&mut self, idx: usize)
        requires
            old(self).wf(),
            idx < old(self).active_filters@.len(),
        ensures
            final(self).wf(),
            final(self).active_filters@ == old(self).active_filters@.remove(idx as int),
            *final(self) == (TableView { active_filters: final(self).active_filters, page: 0, ..*old(self) }),
    {
        self.active_filters.remove(idx);
        self.page = 0;
    }

    /// Starts typing a new row, or drops the one being typed.
    pub fn toggle_new_row(&mut self)
        requires
            old(self).wf(),
        ensures
            final(self).wf(),
            old(self).new_row_active ==> *final(self) == (TableView {
                new_row_active: false,
                new_row_edits: final(self).new_row_edits,
                editing_new_row_col: None,
                new_row_insert_error: None,
                new_row_dirty: false,
                ..*old(self)
            }) && final(self).new_row_edits@.len() == 0,
            !old(self).new_row_active ==> *final(self) == (TableView { new_row_active: true, ..*old(self) }),
    {
        if self.new_row_active {
            self.cancel_new_row();
        } else {
            self.new_row_active = true;
        }
    }

    /// Drops the new row and everything typed into it.
    pub fn cancel_new_row(&mut self)
        requires
            old(self).wf(),
        ensures
            final(self).wf(),
            final(self).new_row_edits@.len() == 0,
            *final(self) == (TableView {
                new_row_active: false,
                new_row_edits: final(self).new_row_edits,
                editing_new_row_col: None,
                new_row_insert_error: None,
                new_row_dirty: false,
                ..*old(self)
            }),
    {
        self.new_row_active = false;
        self.new_row_edits = Vec::new();
        self.editing_new_row_col = None;
        self.new_row_insert_error = None;
        self.new_row_dirty = false;
    }

    /// Drops every pending edit and the cell being edited, and the save error.
    pub fn discard_edits(&mut self)
        requires
            old(self).wf(),
        ensures
            final(self).wf(),
            final(self).pending_edits@.len() == 0,
            *final(self) == (TableView {
                pending_edits: final(self).pending_edits,
                editing_cell: None,
                save_error: None,
                ..*old(self)
            }),
    {
        self.pending_edits = Vec::new();
        self.editing_cell = None;
        self.save_error = None;
    }
}

// ── the pending texts ─────────────────────────────────────────────────────────

/// The position of a cell's pending text, if it has one.
pub fn find_pending(es: &Vec<PendingEdit>, row: usize, col: usize) -> (r: Option<usize>)
    requires
        cells_unique(pending_view(es@)),
    ensures
        match r {
            Some(i) => i < es@.len() && es@[i as int].row == row && es@[i as int].col == col
                && pending_text(pending_view(es@), row, col) == Some(es@[i as int].text@),
            None => pending_text(pending_view(es@), row, col) is None,
        },
{
    let ghost pv = pending_view(es@);
    let n = es.len();
    let mut i: usize = 0;
    while i < n
        invariant
            i <= n == es@.len(),
            pv == pending_view(es@),
            cells_unique(pv),
            forall|k: int| 0 <= k < i ==> !((#[trigger] pv[k]).0 == row && pv[k].1 == col),
        decreases n - i,
    {
        if es[i].row == row && es[i].col == col {
            proof {
                assert(pv[i as int].0 == row && pv[i as int].1 == col);
                let k = choose|k: int| 0 <= k < pv.len() && (#[trigger] pv[k]).0 == row && pv[k].1 == col;
                if k != i as int {
                    if k < i as int {
                        assert(!(pv[k].0 == row && pv[k].1 == col));
                    } else {
                        assert(pv[i as int].0 == pv[k].0 && pv[i as int].1 == pv[k].1);
                    }
                }
            }
            return Some(i);
        }
        i = i + 1;
    }
    None
}

/// The position of a column's text in the new row, if it has one.
pub fn find_new_row(es: &Vec<NewRowEdit>, col: usize) -> (r: Option<usize>)
    requires
        cols_unique(new_row_view(es@)),
    ensures
        match r {
            Some(i) => i < es@.len() && es@[i as int].col == col
                && new_row_text(new_row_view(es@), col) == Some(es@[i as int].text@),
            None => new_row_text(new_row_view(es@), col) is None,
        },
{
    let ghost pv = new_row_view(es@);
    let n = es.len();
    let mut i: usize = 0;
    while i < n
        invariant
            i <= n == es@.len(),
            pv == new_row_view(es@),
            cols_unique(pv),
            forall|k: int| 0 <= k < i ==> (#[trigger] pv[k]).0 != col,
        decreases n - i,
    {
        if es[i].col == col {
            proof {
                assert(pv[i as int].0 == col);
                let k = choose|k: int| 0 <= k < pv.len() && (#[trigger] pv[k]).0 == col;
                if k != i as int {
                    if k < i as int {
                        assert(pv[k].0 != col);
                    } else {
                        assert(pv[i as int].0 == pv[k].0);
                    }
                }
            }
            return Some(i);
        }
        i = i + 1;
    }
    None
}

/// Records `text` for a cell, replacing its earlier text.
pub fn set_pending(es: &mut Vec<PendingEdit>, row: usize, col: usize, text: String)
    requires
        cells_unique(pending_view(old(es)@)),
    ensures
        cells_unique(pending_view(final(es)@)),
        pending_view(final(es)@) == pending_after_set(pending_view(old(es)@), row, col, text@),
{
    let ghost pv = pending_view(es@);
    match find_pending(es, row, col) {
        Some(i) => {
            proof {
                let k = choose|k: int| 0 <= k < pv.len() && (#[trigger] pv[k]).0 == row && pv[k].1 == col;
                assert(pv[i as int].0 == row && pv[i as int].1 == col);
                if k != i as int {
                    if k < i as int {
                        assert(!(pv[k].0 == pv[i as int].0 && pv[k].1 == pv[i as int].1));
                    } else {
                        assert(!(pv[i as int].0 == pv[k].0 && pv[i as int].1 == pv[k].1));
                    }
                }
            }
            es.set(i, PendingEdit { row, col, text });
            proof {
                assert(pending_view(es@) =~= pv.update(i as int, (row, col, text@)));
            }
        },
        None => {
            es.push(PendingEdit { row, col, text });
            proof {
                assert(pending_view(es@) =~= pv.push((row, col, text@)));
                assert(!exists|k: int| 0 <= k < pv.len() && (#[trigger] pv[k]).0 == row && pv[k].1 == col);
            }
        },
    }
}

/// Records `text` for a column of the new row, replacing its earlier text.
pub fn set_new_row_text(es: &mut Vec<NewRowEdit>, col: usize, text: String)
    requires
        cols_unique(new_row_view(old(es)@)),
    ensures
        cols_unique(new_row_view(final(es)@)),
        new_row_view(final(es)@) == new_row_after_set(new_row_view(old(es)@), col, text@),
{
    let ghost pv = new_row_view(es@);
    match find_new_row(es, col) {
        Some(i) => {
            proof {
                let k = choose|k: int| 0 <= k < pv.len() && (#[trigger] pv[k]).0 == col;
                assert(pv[i as int].0 == col);
                if k != i as int {
                    if k < i as int {
                        assert(pv[k].0 != pv[i as int].0);
                    } else {
                        assert(pv[i as int].0 != pv[k].0);
                    }
                }
            }
            es.set(i, NewRowEdit { col, text });
            proof {
                assert(new_row_view(es@) =~= pv.update(i as int, (col, text@)));
            }
        },
        None => {
            es.push(NewRowEdit { col, text });
            proof {
                assert(new_row_view(es@) =~= pv.push((col, text@)));
                assert(!exists|k: int| 0 <= k < pv.len() && (#[trigger] pv[k]).0 == col);
            }
        },
    }
}

// ── editing cells and the new row ─────────────────────────────────────────────

/// The pending texts once the cell being edited (if any) takes `text`.
pub open spec fn pending_after_commit(s: TableView, text: Seq<char>) -> Seq<(usize, usize, Seq<char>)> {
    match s.editing_cell {
        Some((r, c)) => pending_after_set(pending_view(s.pending_edits@), r, c, text),
        None => pending_view(s.pending_edits@),
    }
}

/// The new row's texts once the column being edited (if any) takes `text`;
/// empty text records nothing.
pub open spec fn new_row_after_commit(s: TableView, text: Seq<char>) -> Seq<(usize, Seq<char>)> {
    match s.editing_new_row_col {
        Some(c) => if text.len() > 0 {
            new_row_after_set(new_row_view(s.new_row_edits@), c, text)
        } else {
            new_row_view(s.new_row_edits@)
        },
        None => new_row_view(s.new_row_edits@),
    }
}

/// The text a cell's editor starts with: the value's text, empty for NULL or
/// for a cell that does not exist.
pub open spec fn edit_start_text(rows: Seq<Vec<Value>>, row: usize, col: usize) -> Seq<char> {
    if row < rows.len() && col < rows[row as int]@.len() {
        match rows[row as int]@[col as int] {
            Value::Null => Seq::empty(),
            v => v.text(),
        }
    } else {
        Seq::empty()
    }
}

/// The RGBA color of a cell's text: yellow for a pending edit, else by the
/// kind of value.
pub open spec fn cell_color_of(v: Value, pending: bool) -> u32 {
    if pending {
        0xf9e2afff
    } else {
        match v {
            Value::Null => 0x6c7086ff,
            Value::Int(_) | Value::Float(_) => 0xfab387ff,
            Value::Bool(_) => 0xcba6f7ff,
            Value::DateTime(_) => 0xa6e3a1ff,
            _ => 0xcdd6f4ff,
        }
    }
}

/// The color a value's text is drawn in when it is not being edited.
pub fn value_color(v: &Value) -> (r: u32)
    ensures
        r == cell_color_of(*v, false),
{
    match v {
        Value::Null => 0x6c7086ff,
        Value::Int(_) | Value::Float(_) => 0xfab387ff,
        Value::Bool(_) => 0xcba6f7ff,
        Value::DateTime(_) => 0xa6e3a1ff,
        _ => 0xcdd6f4ff,
    }
}

/// What the grid shows.
#[derive(Clone, Copy, Debug, PartialEq, Eq, Structural)]
pub enum GridStatus {
    Loading,
    Error,
    NoResults,
    Rows,
}

/// A cell of the new row.
#[derive(Clone, Debug)]
pub enum NewRowCell {
    /// A primary key the database fills in.
    Auto,
    /// The cell being typed into.
    Editing,
    /// Typed text (`pending`), or the column's name as a placeholder.
    Text { text: String, pending: bool },
}

impl TableView {
    /// Ends the edit of a cell, keeping `field_text` (the edit field's content)
    /// as the cell's pending text.
    pub fn commit_edit(&mut self, field_text: String)
        requires
            old(self).wf(),
        ensures
            final(self).wf(),
            pending_view(final(self).pending_edits@) == pending_after_commit(*old(self), field_text@),
            *final(self) == (TableView {
                pending_edits: final(self).pending_edits,
                editing_cell: None,
                ..*old(self)
            }),
    {
        match self.editing_cell {
            Some((r, c)) => {
                set_pending(&mut self.pending_edits, r, c, field_text);
                self.editing_cell = None;
            },
            None => {},
        }
    }

    /// Stops editing a cell without keeping what was typed.
    pub fn cancel_edit(&mut self)
        requires
            old(self).wf(),
        ensures
            final(self).wf(),
            *final(self) == (TableView { editing_cell: None, ..*old(self) }),
    {
        self.editing_cell = None;
    }

    /// Ends the edit of a new-row column, keeping `field_text` when it is not empty.
    pub fn commit_new_row_edit(&mut self, field_text: String)
        requires
            old(self).wf(),
        ensures
            final(self).wf(),
            new_row_view(final(self).new_row_edits@) == new_row_after_commit(*old(self), field_text@),
            *final(self) == (TableView {
                new_row_edits: final(self).new_row_edits,
                editing_new_row_col: None,
                ..*old(self)
            }),
    {
        match self.editing_new_row_col {
            Some(c) => {
                self.editing_new_row_col = None;
                if field_text.as_str().unicode_len() > 0 {
                    set_new_row_text(&mut self.new_row_edits, c, field_text);
                }
            },
            None => {},
        }
    }

    /// Starts editing a cell: what was being typed (`field_text`) is kept first,
    /// then the cell becomes the one being edited and the save error clears.
    /// Returns the text the edit field starts with.
    pub fn start_editing(&mut self, row: usize, col: usize, field_text: String) -> (r: String)
        requires
            old(self).wf(),
        ensures
            final(self).wf(),
            r@ == edit_start_text(old(self).rows@, row, col),
            pending_view(final(self).pending_edits@) == pending_after_commit(*old(self), field_text@),
            new_row_view(final(self).new_row_edits@) == new_row_after_commit(*old(self), field_text@),
            *final(self) == (TableView {
                pending_edits: final(self).pending_edits,
                new_row_edits: final(self).new_row_edits,
                editing_new_row_col: None,
                editing_cell: Some((row, col)),
                save_error: None,
                ..*old(self)
            }),
    {
        let t2 = field_text.clone();
        self.commit_edit(field_text);
        self.commit_new_row_edit(t2);
        let current = if row < self.rows.len() && col < self.rows[row].len() {
            match &self.rows[row][col] {
                Value::Null => String::new(),
                other => other.to_display_string(),
            }
        } else {
            String::new()
        };
        self.editing_cell = Some((row, col));
        self.save_error = None;
        current
    }

    /// Starts typing into a column of the new row: what was being typed is kept
    /// first, the row is marked as changed and its insert error clears. Returns
    /// the text the edit field starts with (what the column already holds).
    pub fn begin_new_row_cell(&mut self, col: usize, field_text: String) -> (r: String)
        requires
            old(self).wf(),
        ensures
            final(self).wf(),
            pending_view(final(self).pending_edits@) == pending_after_commit(*old(self), field_text@),
            new_row_view(final(self).new_row_edits@) == new_row_after_commit(*old(self), field_text@),
            r@ == (match new_row_text(new_row_after_commit(*old(self), field_text@), col) {
                Some(t) => t,
                None => Seq::empty(),
            }),
            *final(self) == (TableView {
                pending_edits: final(self).pending_edits,
                new_row_edits: final(self).new_row_edits,
                editing_cell: None,
                editing_new_row_col: Some(col),
                new_row_dirty: true,
                new_row_insert_error: None,
                ..*old(self)
            }),
    {
        let t2 = field_text.clone();
        self.commit_edit(field_text);
        self.commit_new_row_edit(t2);
        self.editing_new_row_col = Some(col);
        self.new_row_dirty = true;
        self.new_row_insert_error = None;
        match find_new_row(&self.new_row_edits, col) {
            Some(i) => self.new_row_edits[i].text.clone(),
            None => String::new(),
        }
    }

    /// The text a cell shows: its pending text, or its value's text.
    pub fn cell_text(&self, row: usize, col: usize) -> (r: String)
        requires
            self.wf(),
            row < self.rows@.len(),
            col < self.rows@[row as int]@.len(),
        ensures
            r@ == (match pending_text(pending_view(self.pending_edits@), row, col) {
                Some(t) => t,
                None => self.rows@[row as int]@[col as int].text(),
            }),
    {
        match find_pending(&self.pending_edits, row, col) {
            Some(i) => self.pending_edits[i].text.clone(),
            None => self.rows[row][col].to_display_string(),
        }
    }

    /// The color a cell's text is drawn in.
    pub fn cell_color(&self, row: usize, col: usize) -> (r: u32)
        requires
            self.wf(),
            row < self.rows@.len(),
            col < self.rows@[row as int]@.len(),
        ensures
            r == cell_color_of(self.rows@[row as int]@[col as int],
                pending_text(pending_view(self.pending_edits@), row, col) is Some),
    {
        if find_pending(&self.pending_edits, row, col).is_some() {
            0xf9e2afff
        } else {
            value_color(&self.rows[row][col])
        }
    }

    /// The foreign key a column's cells link through: the first whose column is
    /// the column's name (the empty name for a column that does not exist).
    pub fn foreign_key_for(&self, col: usize) -> (r: Option<usize>)
        ensures
            ({
                let name = if col < self.columns@.len() { self.columns@[col as int].name@ } else { Seq::<char>::empty() };
                match r {
                    Some(i) => i < self.foreign_keys@.len() && self.foreign_keys@[i as int].column@ == name
                        && forall|k: int| 0 <= k < i ==> (#[trigger] self.foreign_keys@[k]).column@ != name,
                    None => forall|k: int| 0 <= k < self.foreign_keys@.len() ==> (#[trigger] self.foreign_keys@[k]).column@ != name,
                }
            }),
    {
        let name = if col < self.columns.len() { self.columns[col].name.clone() } else { String::new() };
        let n = self.foreign_keys.len();
        let mut i: usize = 0;
        while i < n
            invariant
                i <= n == self.foreign_keys@.len(),
                name@ == (if col < self.columns@.len() { self.columns@[col as int].name@ } else { Seq::<char>::empty() }),
                forall|k: int| 0 <= k < i ==> (#[trigger] self.foreign_keys@[k]).column@ != name@,
            decreases n - i,
        {
            if self.foreign_keys[i].column == name {
                return Some(i);
            }
            i = i + 1;
        }
        None
    }

    /// What a column of the new row shows.
    pub fn new_row_cell(&self, col: usize) -> (r: NewRowCell)
        requires
            self.wf(),
            col < self.columns@.len(),
        ensures
            ({
                let c = self.columns@[col as int];
                let pending = new_row_text(new_row_view(self.new_row_edits@), col);
                if c.is_primary_key && has_substring(c.extra@, "auto_increment"@) {
                    r is Auto
                } else if self.editing_new_row_col == Some(col) {
                    r is Editing
                } else {
                    r matches NewRowCell::Text { text, pending: p }
                        && p == pending is Some
                        && text@ == (match pending { Some(t) => t, None => c.name@ })
                }
            }),
    {
        let c = &self.columns[col];
        if c.is_primary_key && str_contains(c.extra.as_str(), "auto_increment") {
            return NewRowCell::Auto;
        }
        if self.editing_new_row_col == Some(col) {
            return NewRowCell::Editing;
        }
        match find_new_row(&self.new_row_edits, col) {
            Some(i) => NewRowCell::Text { text: self.new_row_edits[i].text.clone(), pending: true },
            None => NewRowCell::Text { text: c.name.clone(), pending: false },
        }
    }

    /// Whether the new row's Insert button works: no insert error, or the row
    /// changed since.
    pub fn insert_enabled(&self) -> (r: bool)
        ensures
            r == (self.new_row_insert_error is None || self.new_row_dirty),
    {
        self.new_row_insert_error.is_none() || self.new_row_dirty
    }

    /// What the grid shows: loading, the error, "No results" for no columns,
    /// else the rows.
    pub fn grid_status(&self) -> (r: GridStatus)
        ensures
            r == (if self.loading { GridStatus::Loading }
                else if self.error is Some { GridStatus::Error }
                else if self.columns@.len() == 0 { GridStatus::NoResults }
                else { GridStatus::Rows }),
    {
        if self.loading {
            GridStatus::Loading
        } else if self.error.is_some() {
            GridStatus::Error
        } else if self.columns.len() == 0 {
            GridStatus::NoResults
        } else {
            GridStatus::Rows
        }
    }
}

// ── saving edits ──────────────────────────────────────────────────────────────

/// The positions of the primary-key columns, in column order.
pub open spec fn pk_indices(cols: Seq<Column>) -> Seq<usize>
    decreases cols.len(),
{
    if cols.len() == 0 {
        Seq::empty()
    } else {
        let p = pk_indices(cols.drop_last());
        if cols.last().is_primary_key { p.push((cols.len() - 1) as usize) } else { p }
    }
}

/// The rows that have pending texts, each once, in the order of their first one.
pub open spec fn edited_rows(es: Seq<(usize, usize, Seq<char>)>) -> Seq<usize>
    decreases es.len(),
{
    if es.len() == 0 {
        Seq::empty()
    } else {
        let p = edited_rows(es.drop_last());
        if p.contains(es.last().0) { p } else { p.push(es.last().0) }
    }
}

/// The pending texts of one row, as (column, text), in order.
pub open spec fn row_edits(es: Seq<(usize, usize, Seq<char>)>, row: usize) -> Seq<(usize, Seq<char>)>
    decreases es.len(),
{
    if es.len() == 0 {
        Seq::empty()
    } else {
        let p = row_edits(es.drop_last(), row);
        if es.last().0 == row { p.push((es.last().1, es.last().2)) } else { p }
    }
}

/// Column texts as (column name, value), leaving out columns that do not exist.
pub open spec fn cell_edits_for(cols: Seq<Column>, edits: Seq<(usize, Seq<char>)>) -> Seq<(Seq<char>, ValueView)>
    decreases edits.len(),
{
    if edits.len() == 0 {
        Seq::empty()
    } else {
        let p = cell_edits_for(cols, edits.drop_last());
        let (c, t) = edits.last();
        if c < cols.len() { p.push((cols[c as int].name@, text_value(t))) } else { p }
    }
}

/// The values of a row at the given positions; NULL where the row is too short.
pub open spec fn values_at(row: Seq<Value>, idx: Seq<usize>) -> Seq<ValueView> {
    idx.map_values(|i: usize| if i < row.len() { row[i as int]@ } else { ValueView::Null })
}

/// The names of the columns at the given positions.
pub open spec fn names_at(cols: Seq<Column>, idx: Seq<usize>) -> Seq<Seq<char>> {
    idx.map_values(|i: usize| cols[i as int].name@)
}

/// What a row update holds, with strings and values seen as sequences.
pub open spec fn update_view(u: RowUpdate) -> (Seq<char>, Seq<char>, Seq<Seq<char>>, Seq<ValueView>, Seq<(Seq<char>, ValueView)>) {
    (u.database@, u.table@, crate::strings::views(u.pk_columns@), crate::db::types::value_views(u.pk_values@),
        u.edits@.map_values(|e: CellEdit| (e.column@, e.new_value@)))
}

/// The update for one row: the view's database and table, the primary key's
/// columns and this row's values for them, and the row's pending texts as values.
pub open spec fn update_for_row(s: TableView, es: Seq<(usize, usize, Seq<char>)>, row: usize) -> (Seq<char>, Seq<char>, Seq<Seq<char>>, Seq<ValueView>, Seq<(Seq<char>, ValueView)>) {
    let pks = pk_indices(s.columns@);
    (s.database@, s.table_name@, names_at(s.columns@, pks), values_at(s.rows@[row as int]@, pks),
        cell_edits_for(s.columns@, row_edits(es, row)))
}

/// The updates for the given rows, leaving out rows that are not on show.
pub open spec fn updates_over(s: TableView, es: Seq<(usize, usize, Seq<char>)>, rows: Seq<usize>) -> Seq<(Seq<char>, Seq<char>, Seq<Seq<char>>, Seq<ValueView>, Seq<(Seq<char>, ValueView)>)>
    decreases rows.len(),
{
    if rows.len() == 0 {
        Seq::empty()
    } else {
        let p = updates_over(s, es, rows.drop_last());
        if rows.last() < s.rows@.len() { p.push(update_for_row(s, es, rows.last())) } else { p }
    }
}

/// The updates read only the view's database, table, columns and rows.
proof fn lemma_updates_over_fields(s1: TableView, s2: TableView, es: Seq<(usize, usize, Seq<char>)>, rows: Seq<usize>)
    requires
        s1.database == s2.database,
        s1.table_name == s2.table_name,
        s1.columns == s2.columns,
        s1.rows == s2.rows,
    ensures
        updates_over(s1, es, rows) == updates_over(s2, es, rows),
    decreases rows.len(),
{
    if rows.len() > 0 {
        lemma_updates_over_fields(s1, s2, es, rows.drop_last());
    }
}

/// The message shown when edits cannot be saved for want of a primary key.
pub open spec fn no_primary_key_message() -> Seq<char> {
    "Cannot save: table has no primary key"@
}

/// The positions of the primary-key columns.
pub fn primary_key_indices(cols: &Vec<Column>) -> (r: Vec<usize>)
    ensures
        r@ == pk_indices(cols@),
        forall|k: int| 0 <= k < r@.len() ==> (#[trigger] r@[k]) < cols@.len(),
{
    let n = cols.len();
    let mut r: Vec<usize> = Vec::new();
    let mut i: usize = 0;
    while i < n
        invariant
            i <= n == cols@.len(),
            r@ == pk_indices(cols@.take(i as int)),
            forall|k: int| 0 <= k < r@.len() ==> (#[trigger] r@[k]) < i,
        decreases n - i,
    {
        proof {
            assert(cols@.take(i + 1).drop_last() =~= cols@.take(i as int));
        }
        if cols[i].is_primary_key {
            r.push(i);
        }
        i = i + 1;
    }
    proof {
        assert(cols@.take(n as int) =~= cols@);
    }
    r
}

/// The names of the columns at the given positions.
pub fn names_of(cols: &Vec<Column>, idx: &Vec<usize>) -> (r: Vec<String>)
    requires
        forall|k: int| 0 <= k < idx@.len() ==> (#[trigger] idx@[k]) < cols@.len(),
    ensures
        crate::strings::views(r@) == names_at(cols@, idx@),
{
    let mut r: Vec<String> = Vec::new();
    let n = idx.len();
    let mut i: usize = 0;
    while i < n
        invariant
            i <= n == idx@.len(),
            forall|k: int| 0 <= k < idx@.len() ==> (#[trigger] idx@[k]) < cols@.len(),
            crate::strings::views(r@) == names_at(cols@, idx@.take(i as int)),
        decreases n - i,
    {
        let name = cols[idx[i]].name.clone();
        proof {
            crate::strings::lemma_views_push(r@, name);
            assert(names_at(cols@, idx@.take(i + 1)) =~= names_at(cols@, idx@.take(i as int)).push(name@));
        }
        r.push(name);
        i = i + 1;
    }
    proof {
        assert(idx@.take(n as int) =~= idx@);
    }
    r
}

/// The values of a row at the given positions; NULL where the row is too short.
pub fn values_of(row: &Vec<Value>, idx: &Vec<usize>) -> (r: Vec<Value>)
    requires
        forall|j: int| 0 <= j < row@.len() ==> (#[trigger] row@[j]).wf(),
    ensures
        crate::db::types::value_views(r@) == values_at(row@, idx@),
        forall|j: int| 0 <= j < r@.len() ==> (#[trigger] r@[j]).wf(),
{
    let mut r: Vec<Value> = Vec::new();
    let n = idx.len();
    let mut i: usize = 0;
    while i < n
        invariant
            i <= n == idx@.len(),
            forall|j: int| 0 <= j < row@.len() ==> (#[trigger] row@[j]).wf(),
            crate::db::types::value_views(r@) == values_at(row@, idx@.take(i as int)),
            forall|j: int| 0 <= j < r@.len() ==> (#[trigger] r@[j]).wf(),
        decreases n - i,
    {
        let v = if idx[i] < row.len() { row[idx[i]].deep_copy() } else { Value::Null };
        proof {
            assert(crate::db::types::value_views(r@.push(v)) =~= crate::db::types::value_views(r@).push(v@));
            assert(values_at(row@, idx@.take(i + 1)) =~= values_at(row@, idx@.take(i as int)).push(v@));
        }
        r.push(v);
        i = i + 1;
    }
    proof {
        assert(idx@.take(n as int) =~= idx@);
    }
    r
}

/// The rows with pending texts, each once, in the order of their first one.
pub fn edited_row_list(es: &Vec<PendingEdit>) -> (r: Vec<usize>)
    ensures
        r@ == edited_rows(pending_view(es@)),
{
    let ghost pv = pending_view(es@);
    let mut r: Vec<usize> = Vec::new();
    let n = es.len();
    let mut i: usize = 0;
    while i < n
        invariant
            i <= n == es@.len(),
            pv == pending_view(es@),
            r@ == edited_rows(pv.take(i as int)),
        decreases n - i,
    {
        proof {
            assert(pv.take(i + 1).drop_last() =~= pv.take(i as int));
        }
        let row = es[i].row;
        let mut seen = false;
        let mut k: usize = 0;
        while k < r.len()
            invariant
                k <= r@.len(),
                seen == (exists|j: int| 0 <= j < k && r@[j] == row),
            decreases r@.len() - k,
        {
            if r[k] == row {
                seen = true;
            }
            k = k + 1;
        }
        proof {
            if seen {
                let j = choose|j: int| 0 <= j < k && r@[j] == row;
                assert(r@.contains(row));
            } else {
                assert(!r@.contains(row));
            }
        }
        if !seen {
            r.push(row);
        }
        i = i + 1;
    }
    proof {
        assert(pv.take(n as int) =~= pv);
    }
    r
}

/// A row's pending texts as cell edits: the column's name and the text's value,
/// leaving out columns that do not exist.
pub fn cell_edits_of(cols: &Vec<Column>, es: &Vec<PendingEdit>, row: usize) -> (r: Vec<CellEdit>)
    ensures
        r@.map_values(|e: CellEdit| (e.column@, e.new_value@)) == cell_edits_for(cols@, row_edits(pending_view(es@), row)),
        forall|j: int| 0 <= j < r@.len() ==> (#[trigger] r@[j]).new_value.wf(),
{
    let ghost pv = pending_view(es@);
    let mut r: Vec<CellEdit> = Vec::new();
    let n = es.len();
    let mut i: usize = 0;
    while i < n
        invariant
            i <= n == es@.len(),
            pv == pending_view(es@),
            r@.map_values(|e: CellEdit| (e.column@, e.new_value@)) == cell_edits_for(cols@, row_edits(pv.take(i as int), row)),
            forall|j: int| 0 <= j < r@.len() ==> (#[trigger] r@[j]).new_value.wf(),
        decreases n - i,
    {
        proof {
            assert(pv.take(i + 1).drop_last() =~= pv.take(i as int));
        }
        if es[i].row == row && es[i].col < cols.len() {
            let e = CellEdit {
                column: cols[es[i].col].name.clone(),
                new_value: text_to_value(es[i].text.as_str()),
            };
            proof {
                let re = row_edits(pv.take(i as int), row);
                assert(row_edits(pv.take(i + 1), row) == re.push((es@[i as int].col, es@[i as int].text@)));
                assert(re.push((es@[i as int].col, es@[i as int].text@)).drop_last() =~= re);
                assert(r@.push(e).map_values(|e: CellEdit| (e.column@, e.new_value@))
                    =~= r@.map_values(|e: CellEdit| (e.column@, e.new_value@)).push((e.column@, e.new_value@)));
            }
            r.push(e);
        } else {
            proof {
                let re = row_edits(pv.take(i as int), row);
                if es@[i as int].row == row {
                    assert(re.push((es@[i as int].col, es@[i as int].text@)).drop_last() =~= re);
                }
            }
        }
        i = i + 1;
    }
    proof {
        assert(pv.take(n as int) =~= pv);
    }
    r
}

impl TableView {
    /// Saves the pending edits: the cell being edited keeps `field_text` first.
    /// With nothing pending, nothing happens (`None`). A table without a primary
    /// key cannot be saved: the save error says so (`None`). Otherwise the result
    /// holds one update per edited row on show, in the order of the rows' first
    /// edits; the edits stay pending until the reloaded data arrives.
    pub fn save_changes(&mut self, field_text: String) -> (r: Option<Vec<RowUpdate>>)
        requires
            old(self).wf(),
        ensures
            final(self).wf(),
            pending_view(final(self).pending_edits@) == pending_after_commit(*old(self), field_text@),
            ({
                let pv = pending_after_commit(*old(self), field_text@);
                if pv.len() == 0 {
                    &&& r is None
                    &&& *final(self) == (TableView { pending_edits: final(self).pending_edits, editing_cell: None, ..*old(self) })
                } else if pk_indices(old(self).columns@).len() == 0 {
                    &&& r is None
                    &&& final(self).save_error matches Some(m) && m@ == no_primary_key_message()
                    &&& *final(self) == (TableView {
                        pending_edits: final(self).pending_edits,
                        editing_cell: None,
                        save_error: final(self).save_error,
                        ..*old(self)
                    })
                } else {
                    &&& r matches Some(us) && us@.map_values(|u: RowUpdate| update_view(u))
                        == updates_over(*old(self), pv, edited_rows(pv))
                    &&& *final(self) == (TableView { pending_edits: final(self).pending_edits, editing_cell: None, ..*old(self) })
                }
            }),
    {
        self.commit_edit(field_text);
        if self.pending_edits.len() == 0 {
            return None;
        }
        let pks = primary_key_indices(&self.columns);
        if pks.len() == 0 {
            self.save_error = Some(String::from_str("Cannot save: table has no primary key"));
            return None;
        }
        let pk_names = names_of(&self.columns, &pks);
        let order = edited_row_list(&self.pending_edits);
        let ghost pv = pending_view(self.pending_edits@);
        let ghost s = *self;
        let mut updates: Vec<RowUpdate> = Vec::new();
        let n = order.len();
        let mut i: usize = 0;
        while i < n
            invariant
                i <= n == order@.len(),
                s == *self,
                s.wf(),
                pv == pending_view(s.pending_edits@),
                pks@ == pk_indices(s.columns@),
                forall|k: int| 0 <= k < pks@.len() ==> (#[trigger] pks@[k]) < s.columns@.len(),
                crate::strings::views(pk_names@) == names_at(s.columns@, pks@),
                updates@.map_values(|u: RowUpdate| update_view(u)) == updates_over(s, pv, order@.take(i as int)),
            decreases n - i,
        {
            proof {
                assert(order@.take(i + 1).drop_last() =~= order@.take(i as int));
            }
            let row = order[i];
            if row < self.rows.len() {
                let pk_values = values_of(&self.rows[row], &pks);
                let edits = cell_edits_of(&self.columns, &self.pending_edits, row);
                let mut pk_columns: Vec<String> = Vec::new();
                let mut k: usize = 0;
                while k < pk_names.len()
                    invariant
                        k <= pk_names@.len(),
                        crate::strings::views(pk_columns@) == crate::strings::views(pk_names@).take(k as int),
                    decreases pk_names@.len() - k,
                {
                    let c = pk_names[k].clone();
                    proof {
                        crate::strings::lemma_views_push(pk_columns@, c);
                        assert(crate::strings::views(pk_names@).take(k + 1) =~= crate::strings::views(pk_names@).take(k as int).push(c@));
                    }
                    pk_columns.push(c);
                    k = k + 1;
                }
                proof {
                    assert(crate::strings::views(pk_names@).take(pk_names@.len() as int) =~= crate::strings::views(pk_names@));
                }
                let u = RowUpdate {
                    database: self.database.clone(),
                    table: self.table_name.clone(),
                    pk_columns,
                    pk_values,
                    edits,
                };
                proof {
                    assert(update_view(u) == update_for_row(s, pv, row));
                    assert(updates@.push(u).map_values(|u: RowUpdate| update_view(u))
                        =~= updates@.map_values(|u: RowUpdate| update_view(u)).push(update_view(u)));
                }
                updates.push(u);
            }
            i = i + 1;
        }
        proof {
            assert(order@.take(n as int) =~= order@);
            lemma_updates_over_fields(s, *old(self), pv, order@);
        }
        Some(updates)
    }

    /// Inserts the new row: the column being edited keeps `field_text` (when not
    /// empty) first. With nothing typed, nothing happens (`None`); otherwise the
    /// result names the view's database and table and holds each typed column's
    /// name and value, in the order the columns were first typed into, leaving
    /// out columns that do not exist.
    pub fn save_new_row(&mut self, field_text: String) -> (r: Option<NewRowInsert>)
        requires
            old(self).wf(),
        ensures
            final(self).wf(),
            new_row_view(final(self).new_row_edits@) == new_row_after_commit(*old(self), field_text@),
            *final(self) == (TableView {
                new_row_edits: final(self).new_row_edits,
                editing_new_row_col: None,
                ..*old(self)
            }),
            ({
                let nv = new_row_after_commit(*old(self), field_text@);
                if nv.len() == 0 {
                    r is None
                } else {
                    r matches Some(ins)
                        && ins.database == old(self).database
                        && ins.table == old(self).table_name
                        && ins.column_values@.map_values(|p: (String, Value)| (p.0@, p.1@))
                            == cell_edits_for(old(self).columns@, nv)
                }
            }),
    {
        self.commit_new_row_edit(field_text);
        if self.new_row_edits.len() == 0 {
            return None;
        }
        let ghost nv = new_row_view(self.new_row_edits@);
        let mut column_values: Vec<(String, Value)> = Vec::new();
        let n = self.new_row_edits.len();
        let mut i: usize = 0;
        while i < n
            invariant
                i <= n == self.new_row_edits@.len(),
                nv == new_row_view(self.new_row_edits@),
                column_values@.map_values(|p: (String, Value)| (p.0@, p.1@)) == cell_edits_for(self.columns@, nv.take(i as int)),
            decreases n - i,
        {
            proof {
                assert(nv.take(i + 1).drop_last() =~= nv.take(i as int));
            }
            let c = self.new_row_edits[i].col;
            if c < self.columns.len() {
                let p = (self.columns[c].name.clone(), text_to_value(self.new_row_edits[i].text.as_str()));
                proof {
                    assert(column_values@.push(p).map_values(|p: (String, Value)| (p.0@, p.1@))
                        =~= column_values@.map_values(|p: (String, Value)| (p.0@, p.1@)).push((p.0@, p.1@)));
                }
                column_values.push(p);
            }
            i = i + 1;
        }
        proof {
            assert(nv.take(n as int) =~= nv);
        }
        Some(NewRowInsert {
            database: self.database.clone(),
            table: self.table_name.clone(),
            column_values,
        })
    }
}
} // verus!
