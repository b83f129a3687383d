//! The filter panel: the filters being built and whether they are shown.

use vstd::prelude::*;
use crate::query::filter::{op_label, Filter, FilterOp};
use crate::strings::concat3;

verus! {

/// The filters of the panel, the columns they can name, and whether the panel shows.
pub struct FilterPanel {
    pub filters: Vec<Filter>,
    pub available_columns: Vec<String>,
    pub visible: bool,
}

/// A filter's chip text on the panel: the column, the operator's label and,
/// when there is one, the value, separated by spaces.
pub open spec fn chip_text(f: Filter) -> Seq<char> {
    match f.value {
        Some(v) => f.column@ + " "@ + op_label(f.op) + " "@ + v@,
        None => f.column@ + " "@ + op_label(f.op),
    }
}

/// The chip text of one filter.
pub fn chip_label(f: &Filter) -> (r: String)
    ensures
        r@ == chip_text(*f),
{
    let mut r = concat3(f.column.as_str(), " ", f.op.label());
    match &f.value {
        Some(v) => {
            r.append(" ");
            r.append(v.as_str());
        },
        None => {},
    }
    proof {
        assert(r@ =~= chip_text(*f));
    }
    r
}

impl FilterPanel {
    /// A hidden panel with no filters and no columns.
    pub fn new() -> (r: FilterPanel)
        ensures
            r.filters@.len() == 0,
            r.available_columns@.len() == 0,
            !r.visible,
    {
        FilterPanel { filters: Vec::new(), available_columns: Vec::new(), visible: false }
    }

    /// Shows or hides the panel.
    pub fn toggle(&mut self)
        ensures
            final(self).visible == !old(self).visible,
            final(self).filters@ == old(self).filters@,
            final(self).available_columns@ == old(self).available_columns@,
    {
        self.visible = !self.visible;
    }

    /// Adds a filter at the end.
    pub fn add_filter(&mut self, column: String, op: FilterOp, value: Option<String>)
        ensures
            final(self).filters@ == old(self).filters@.push(Filter { column, op, value }),
            final(self).visible == old(self).visible,
            final(self).available_columns@ == old(self).available_columns@,
    {
        self.filters.push(Filter { column, op, value });
    }

    /// Removes the filter at `index`; an index past the end changes nothing.
    pub fn remove_filter(&mut self, index: usize)
        ensures
            final(self).filters@ == (if index < old(self).filters@.len() {
                old(self).filters@.remove(index as int)
            } else {
                old(self).filters@
            }),
            final(self).visible == old(self).visible,
            final(self).available_columns@ == old(self).available_columns@,
    {
        if index < self.filters.len() {
            self.filters.remove(index);
        }
    }

    /// Removes every filter.
    pub fn clear(&mut self)
        ensures
            final(self).filters@.len() == 0,
            final(self).visible == old(self).visible,
            final(self).available_columns@ == old(self).available_columns@,
    {
        self.filters.clear();
    }

    /// Whether the panel draws anything: it is visible and has filters.
    pub fn shows_anything(&self) -> (r: bool)
        ensures
            r == (self.visible && self.filters@.len() > 0),
    {
        self.visible && self.filters.len() > 0
    }

    /// The chip texts of the filters, in order.
    pub fn chip_labels(&self) -> (r: Vec<String>)
        ensures
            r@.len() == self.filters@.len(),
            forall|i: int| 0 <= i < r@.len() ==> (#[trigger] r@[i])@ == chip_text(self.filters@[i]),
    {
        let mut r: Vec<String> = Vec::new();
        let n = self.filters.len();
        let mut i: usize = 0;
        while i < n
            invariant
                i <= n == self.filters@.len(),
                r@.len() == i,
                forall|k: int| 0 <= k < i ==> (#[trigger] r@[k])@ == chip_text(self.filters@[k]),
            decreases n - i,
        {
            r.push(chip_label(&self.filters[i]));
            i = i + 1;
        }
        r
    }
}

} // verus!
