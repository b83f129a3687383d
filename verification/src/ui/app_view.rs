//! The window around the views: its title.

use vstd::prelude::*;
use crate::strings::concat2;
use crate::ui::tab_bar::{Tab, TabBar, TabKind};

verus! {

/// The first tab with this id, if any.
pub open spec fn tab_with_id(tabs: Seq<Tab>, id: usize) -> Option<Tab>
    decreases tabs.len(),
{
    if tabs.len() == 0 {
        None
    } else {
        match tab_with_id(tabs.drop_last(), id) {
            Some(t) => Some(t),
            None => if tabs.last().id == id { Some(tabs.last()) } else { None },
        }
    }
}

/// What follows the connection's name in the title: " - " and the active
/// tab's table, " - New Query" for a query tab, nothing without an active tab.
pub open spec fn title_suffix(tabs: Seq<Tab>, active: Option<usize>) -> Seq<char> {
    match active {
        Some(id) => match tab_with_id(tabs, id) {
            Some(t) => match t.kind {
                TabKind::Table { table, .. } => " - "@ + table@,
                TabKind::Query { .. } => " - New Query"@,
            },
            None => Seq::empty(),
        },
        None => Seq::empty(),
    }
}

/// The window's title: a prompt to configure a connection, or "Querybox - ",
/// the connection's name and the active tab's suffix.
pub open spec fn window_title_text(connection_name: Option<String>, tabs: Seq<Tab>, active: Option<usize>) -> Seq<char> {
    match connection_name {
        None => "Querybox - Configuring a connection"@,
        Some(name) => "Querybox - "@ + name@ + title_suffix(tabs, active),
    }
}

/// The window's title.
pub fn window_title(connection_name: &Option<String>, bar: &TabBar) -> (r: String)
    ensures
        r@ == window_title_text(*connection_name, bar.tabs@, bar.active_tab),
{
    match connection_name {
        None => String::from_str("Querybox - Configuring a connection"),
        Some(name) => {
            let mut r = concat2("Querybox - ", name.as_str());
            match bar.active_tab {
                Some(id) => {
                    let n = bar.tabs.len();
                    let mut i: usize = 0;
                    while i < n
                        invariant
                            i <= n == bar.tabs@.len(),
                            tab_with_id(bar.tabs@.take(i as int), id) is None,
                            r@ == "Querybox - "@ + name@,
                            *connection_name == Some(*name),
                            bar.active_tab == Some(id),
                        decreases n - i,
                    {
                        proof {
                            assert(bar.tabs@.take(i + 1).drop_last() =~= bar.tabs@.take(i as int));
                        }
                        if bar.tabs[i].id == id {
                            proof {
                                assert(bar.tabs@.take(i + 1).last() == bar.tabs@[i as int]);
                                assert(tab_with_id(bar.tabs@.take(i + 1), id) == Some(bar.tabs@[i as int]));
                                lemma_tab_with_id_prefix(bar.tabs@, id, i as int + 1);
                            }
                            match &bar.tabs[i].kind {
                                TabKind::Table { table, .. } => {
                                    r.append(" - ");
                                    r.append(table.as_str());
                                },
                                TabKind::Query { .. } => r.append(" - New Query"),
                            }
                            proof {
                                assert(r@ =~= window_title_text(*connection_name, bar.tabs@, bar.active_tab));
                            }
                            return r;
                        }
                        i = i + 1;
                    }
                    proof {
                        assert(bar.tabs@.take(n as int) =~= bar.tabs@);
                    }
                },
                None => {},
            }
            proof {
                assert(r@ =~= window_title_text(*connection_name, bar.tabs@, bar.active_tab));
            }
            r
        },
    }
}

/// Once a prefix holds a tab with the id, the whole list finds the same tab.
proof fn lemma_tab_with_id_prefix(tabs: Seq<Tab>, id: usize, k: int)
    requires
        0 <= k <= tabs.len(),
        tab_with_id(tabs.take(k), id) is Some,
    ensures
        tab_with_id(tabs, id) == tab_with_id(tabs.take(k), id),
    decreases tabs.len() - k,
{
    if k < tabs.len() {
        assert(tabs.take(k + 1).drop_last() =~= tabs.take(k));
        lemma_tab_with_id_prefix(tabs, id, k + 1);
    } else {
        assert(tabs.take(k) =~= tabs);
    }
}

} // verus!
