//! The open tabs: tables and query editors, one of them active.

use vstd::prelude::*;
use crate::strings::{decimal, u64_to_decimal, concat2};

verus! {

/// What a tab shows.
#[derive(Debug, Clone, PartialEq)]
pub enum TabKind {
    Table { database: String, table: String },
    Query { name: String },
}

/// An open tab.
#[derive(Debug, Clone)]
pub struct Tab {
    pub id: usize,
    pub kind: TabKind,
}

/// The label of a tab: the table name, or the query's name.
pub open spec fn tab_label(t: Tab) -> Seq<char> {
    match t.kind {
        TabKind::Table { table, .. } => table@,
        TabKind::Query { name } => name@,
    }
}

impl Tab {
    /// The label of the tab.
    pub fn label(&self) -> (r: String)
        ensures
            r@ == tab_label(*self),
    {
        match &self.kind {
            TabKind::Table { table, .. } => table.clone(),
            TabKind::Query { name } => name.clone(),
        }
    }

    /// The one-letter icon of the tab: `T` for a table, `Q` for a query.
    pub fn icon(&self) -> (r: &'static str)
        ensures
            r@ == (if self.kind is Table { "T"@ } else { "Q"@ }),
    {
        match &self.kind {
            TabKind::Table { .. } => "T",
            TabKind::Query { .. } => "Q",
        }
    }
}

/// The open tabs and the active one.
pub struct TabBar {
    pub tabs: Vec<Tab>,
    pub active_tab: Option<usize>,
    pub next_id: usize,
}

/// Whether tab `t` shows table `table` of database `database`.
pub open spec fn shows_table(t: Tab, database: Seq<char>, table: Seq<char>) -> bool {
    t.kind matches TabKind::Table { database: d, table: n } && d@ == database && n@ == table
}

/// What opening a table does to the tabs and the next id, and the id it gives:
/// the first tab that shows the table, with nothing changed, or else a new tab
/// for it at the end, with the next id.
pub open spec fn opened_table(
    tabs: Seq<Tab>,
    next: usize,
    database: String,
    table: String,
    new_tabs: Seq<Tab>,
    new_next: usize,
    id: usize,
) -> bool {
    &&& (exists|i: int| 0 <= i < tabs.len() && shows_table(tabs[i], database@, table@)) ==> {
        &&& new_tabs == tabs
        &&& new_next == next
        &&& exists|i: int| #![trigger tabs[i]]
            0 <= i < tabs.len() && shows_table(tabs[i], database@, table@)
            && id == tabs[i].id
            && forall|j: int| 0 <= j < i ==> !shows_table(tabs[j], database@, table@)
    }
    &&& !(exists|i: int| 0 <= i < tabs.len() && shows_table(tabs[i], database@, table@)) ==> {
        &&& id == next
        &&& new_tabs == tabs.push(Tab { id, kind: TabKind::Table { database, table } })
        &&& new_next == id + 1
    }
}

/// Number of query tabs.
pub open spec fn query_count(tabs: Seq<Tab>) -> nat
    decreases tabs.len(),
{
    if tabs.len() == 0 {
        0
    } else {
        query_count(tabs.drop_last()) + if tabs.last().kind is Query { 1nat } else { 0nat }
    }
}

proof fn lemma_query_count_le(tabs: Seq<Tab>)
    ensures
        query_count(tabs) <= tabs.len(),
    decreases tabs.len(),
{
    if tabs.len() > 0 {
        lemma_query_count_le(tabs.drop_last());
    }
}

impl TabBar {
    /// Tab ids are distinct and all below the next id to hand out.
    pub closed spec fn wf(&self) -> bool {
        &&& forall|i: int, j: int| 0 <= i < j < self.tabs@.len() ==> self.tabs@[i].id != self.tabs@[j].id
        &&& forall|i: int| 0 <= i < self.tabs@.len() ==> (#[trigger] self.tabs@[i]).id < self.next_id
        &&& self.next_id >= 1
    }

    /// The id the next new tab gets.
    pub closed spec fn next_id_spec(&self) -> usize {
        self.next_id
    }

    /// No tabs, none active.
    pub fn new() -> (r: TabBar)
        ensures
            r.wf(),
            r.tabs@.len() == 0,
            r.active_tab is None,
            r.next_id_spec() == 1,
    {
        TabBar { tabs: Vec::new(), active_tab: None, next_id: 1 }
    }

    /// Activates the tab of a table, opening one when none shows it; returns its id.
    pub fn open_table(&mut self, database: String, table: String) -> (id: usize)
        requires
            old(self).wf(),
            old(self).next_id_spec() < usize::MAX,
        ensures
            final(self).wf(),
            final(self).active_tab == Some(id),
            opened_table(old(self).tabs@, old(self).next_id_spec(), database, table,
                final(self).tabs@, final(self).next_id_spec(), id),
    {
        let n = self.tabs.len();
        let mut i: usize = 0;
        while i < n
            invariant
                i <= n == self.tabs@.len(),
                self.tabs@ == old(self).tabs@,
                self.next_id == old(self).next_id,
                old(self).wf(),
                forall|j: int| 0 <= j < i ==> !shows_table(self.tabs@[j], database@, table@),
            decreases n - i,
        {
            match &self.tabs[i].kind {
                TabKind::Table { database: d, table: t } => {
                    if *d == database && *t == table {
                        let id = self.tabs[i].id;
                        self.active_tab = Some(id);
                        proof {
                            assert(shows_table(old(self).tabs@[i as int], database@, table@));
                        }
                        return id;
                    }
                },
                TabKind::Query { .. } => {},
            }
            i = i + 1;
        }
        let id = self.next_id;
        self.next_id = self.next_id + 1;
        self.tabs.push(Tab { id, kind: TabKind::Table { database, table } });
        self.active_tab = Some(id);
        id
    }

    /// Opens a new query tab named `Query <n>`, n being one more than the number
    /// of query tabs open, and activates it; returns its id.
    pub fn open_query(&mut self) -> (id: usize)
        requires
            old(self).wf(),
            old(self).next_id_spec() < usize::MAX,
            old(self).tabs@.len() < usize::MAX,
        ensures
            final(self).wf(),
            id == old(self).next_id_spec(),
            final(self).next_id_spec() == id + 1,
            final(self).active_tab == Some(id),
            final(self).tabs@.len() == old(self).tabs@.len() + 1,
            final(self).tabs@.drop_last() == old(self).tabs@,
            final(self).tabs@.last().id == id,
            final(self).tabs@.last().kind matches TabKind::Query { name }
                && name@ == "Query "@ + decimal(query_count(old(self).tabs@) + 1),
    {
        let n = self.tabs.len();
        let mut count: usize = 0;
        let mut i: usize = 0;
        while i < n
            invariant
                i <= n == self.tabs@.len(),
                self.tabs@ == old(self).tabs@,
                self.next_id == old(self).next_id,
                count == query_count(self.tabs@.take(i as int)),
            decreases n - i,
        {
            proof {
                assert(self.tabs@.take(i + 1).drop_last() =~= self.tabs@.take(i as int));
                lemma_query_count_le(self.tabs@.take(i as int));
            }
            if let TabKind::Query { .. } = &self.tabs[i].kind {
                count = count + 1;
            }
            i = i + 1;
        }
        proof {
            assert(self.tabs@.take(n as int) =~= self.tabs@);
            lemma_query_count_le(self.tabs@);
        }
        let number = u64_to_decimal((count + 1) as u64);
        let name = concat2("Query ", number.as_str());
        let id = self.next_id;
        self.next_id = self.next_id + 1;
        self.tabs.push(Tab { id, kind: TabKind::Query { name } });
        self.active_tab = Some(id);
        proof {
            assert(self.tabs@.drop_last() =~= old(self).tabs@);
        }
        id
    }

    /// Closes a tab. When it was the active one, the last remaining tab becomes
    /// active, or none when no tab is left.
    pub fn close_tab(&mut self, tab_id: usize)
        requires
            old(self).wf(),
        ensures
            final(self).wf(),
            final(self).next_id_spec() == old(self).next_id_spec(),
            (exists|i: int| 0 <= i < old(self).tabs@.len() && old(self).tabs@[i].id == tab_id) ==>
                exists|i: int| #![trigger old(self).tabs@[i]]
                    0 <= i < old(self).tabs@.len() && old(self).tabs@[i].id == tab_id
                    && final(self).tabs@ == old(self).tabs@.remove(i),
            !(exists|i: int| 0 <= i < old(self).tabs@.len() && old(self).tabs@[i].id == tab_id) ==>
                final(self).tabs@ == old(self).tabs@,
            forall|i: int| 0 <= i < final(self).tabs@.len() ==> (#[trigger] final(self).tabs@[i]).id != tab_id,
            old(self).active_tab == Some(tab_id) ==> final(self).active_tab == (
                if final(self).tabs@.len() == 0 { None } else { Some(final(self).tabs@.last().id) }),
            old(self).active_tab != Some(tab_id) ==> final(self).active_tab == old(self).active_tab,
    {
        let n = self.tabs.len();
        let mut i: usize = 0;
        while i < n
            invariant
                i <= n == self.tabs@.len(),
                self.tabs@ == old(self).tabs@,
                self.next_id == old(self).next_id,
                self.active_tab == old(self).active_tab,
                forall|j: int| 0 <= j < i ==> self.tabs@[j].id != tab_id,
            ensures
                i <= n == self.tabs@.len(),
                self.tabs@ == old(self).tabs@,
                self.next_id == old(self).next_id,
                self.active_tab == old(self).active_tab,
                forall|j: int| 0 <= j < i ==> self.tabs@[j].id != tab_id,
                i < n ==> self.tabs@[i as int].id == tab_id,
            decreases n - i,
        {
            if self.tabs[i].id == tab_id {
                break;
            }
            i = i + 1;
        }
        if i < n {
            self.tabs.remove(i);
            proof {
                assert forall|a: int, b: int| 0 <= a < b < self.tabs@.len() implies self.tabs@[a].id != self.tabs@[b].id by {
                    let oa = if a < i { a } else { a + 1 };
                    let ob = if b < i { b } else { b + 1 };
                    assert(self.tabs@[a] == old(self).tabs@[oa]);
                    assert(self.tabs@[b] == old(self).tabs@[ob]);
                }
                assert forall|k: int| 0 <= k < self.tabs@.len() implies (#[trigger] self.tabs@[k]).id != tab_id by {
                    let ok = if k < i { k } else { k + 1 };
                    assert(self.tabs@[k] == old(self).tabs@[ok]);
                    assert(old(self).tabs@[i as int].id == tab_id);
                }
            }
        }
        if self.active_tab == Some(tab_id) {
            let m = self.tabs.len();
            if m == 0 {
                self.active_tab = None;
            } else {
                self.active_tab = Some(self.tabs[m - 1].id);
            }
        }
    }

    /// Makes a tab the active one.
    pub fn set_active(&mut self, tab_id: usize)
        requires
            old(self).wf(),
        ensures
            final(self).wf(),
            final(self).tabs@ == old(self).tabs@,
            final(self).next_id_spec() == old(self).next_id_spec(),
            final(self).active_tab == Some(tab_id),
    {
        self.active_tab = Some(tab_id);
    }

    /// Activates the tab at a 0-based position, or the last tab when there are
    /// fewer; with no tabs nothing changes.
    pub fn switch_to_position(&mut self, position: usize)
        requires
            old(self).wf(),
        ensures
            final(self).wf(),
            final(self).tabs@ == old(self).tabs@,
            final(self).next_id_spec() == old(self).next_id_spec(),
            old(self).tabs@.len() == 0 ==> final(self).active_tab == old(self).active_tab,
            old(self).tabs@.len() > 0 ==> final(self).active_tab == Some(old(self).tabs@[
                if position < old(self).tabs@.len() { position as int } else { old(self).tabs@.len() - 1 }
            ].id),
    {
        let n = self.tabs.len();
        if n == 0 {
            return;
        }
        let idx = if position < n { position } else { n - 1 };
        let id = self.tabs[idx].id;
        self.set_active(id);
    }
}

} // verus!
