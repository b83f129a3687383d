//! The sidebar: the connection, the database picker and the table list.

use vstd::prelude::*;

verus! {

/// What a click in the sidebar asks the application to do.
pub enum SidebarEvent {
    OpenConnectionDialog,
    NewQuery,
    SelectDatabase(String),
    OpenTable { database: String, table: String },
}

/// What the sidebar shows.
pub struct Sidebar {
    pub connection_name: Option<String>,
    pub engine_info: Option<String>,
    pub databases: Vec<String>,
    pub selected_database: Option<String>,
    pub tables: Vec<String>,
    pub selected_table: Option<String>,
    pub db_expanded: bool,
}

impl Sidebar {
    /// A sidebar with no connection.
    pub fn new() -> (r: Sidebar)
        ensures
            r.connection_name is None,
            r.engine_info is None,
            r.databases@.len() == 0,
            r.selected_database is None,
            r.tables@.len() == 0,
            r.selected_table is None,
            !r.db_expanded,
    {
        Sidebar {
            connection_name: None,
            engine_info: None,
            databases: Vec::new(),
            selected_database: None,
            tables: Vec::new(),
            selected_table: None,
            db_expanded: false,
        }
    }

    /// The header's two lines: the connection's name and engine, or a prompt to connect.
    pub fn connection_header(&self) -> (r: (String, String))
        ensures
            match (self.connection_name, self.engine_info) {
                (Some(n), Some(i)) => r.0@ == n@ && r.1@ == i@,
                _ => r.0@ == "No connection"@ && r.1@ == "Click to connect"@,
            },
    {
        match (&self.connection_name, &self.engine_info) {
            (Some(n), Some(i)) => (n.clone(), i.clone()),
            _ => (String::from_str("No connection"), String::from_str("Click to connect")),
        }
    }

    /// The database picker's text: the selected database, or a prompt.
    pub fn database_label(&self) -> (r: String)
        ensures
            r@ == (match self.selected_database { Some(d) => d@, None => "Select database"@ }),
    {
        match &self.selected_database {
            Some(d) => d.clone(),
            None => String::from_str("Select database"),
        }
    }

    /// Opens or closes the database list; with no databases it stays closed.
    pub fn toggle_databases(&mut self)
        ensures
            final(self).db_expanded == (if old(self).databases@.len() > 0 { !old(self).db_expanded } else { old(self).db_expanded }),
            final(self).databases@ == old(self).databases@,
            final(self).selected_database == old(self).selected_database,
            final(self).tables@ == old(self).tables@,
            final(self).selected_table == old(self).selected_table,
    {
        if self.databases.len() > 0 {
            self.db_expanded = !self.db_expanded;
        }
    }

    /// Picks a database from the list, which closes.
    pub fn select_database(&mut self, db: String) -> (r: SidebarEvent)
        ensures
            final(self).selected_database == Some(db),
            !final(self).db_expanded,
            r matches SidebarEvent::SelectDatabase(d) && d == db,
            final(self).databases@ == old(self).databases@,
            final(self).tables@ == old(self).tables@,
            final(self).selected_table == old(self).selected_table,
    {
        self.selected_database = Some(db.clone());
        self.db_expanded = false;
        SidebarEvent::SelectDatabase(db)
    }

    /// Picks a table: it becomes the selected one and opens in the selected
    /// database (the empty name when none is selected).
    pub fn select_table(&mut self, table: String) -> (r: SidebarEvent)
        ensures
            final(self).selected_table == Some(table),
            r matches SidebarEvent::OpenTable { database, table: t }
                && t == table
                && database@ == (match old(self).selected_database { Some(d) => d@, None => Seq::<char>::empty() }),
            final(self).selected_database == old(self).selected_database,
            final(self).databases@ == old(self).databases@,
            final(self).tables@ == old(self).tables@,
            final(self).db_expanded == old(self).db_expanded,
    {
        let database = match &self.selected_database {
            Some(d) => d.clone(),
            None => String::new(),
        };
        self.selected_table = Some(table.clone());
        SidebarEvent::OpenTable { database, table }
    }

    /// Shows the databases of a fresh connection. When the connection's default
    /// database (`auto_select`) is among them it becomes the selected database,
    /// with its tables still to load, and is returned; otherwise the selection
    /// and the tables stay as they were and the result is `None`.
    pub fn set_databases(&mut self, databases: Vec<String>, auto_select: Option<String>) -> (r: Option<String>)
        ensures
            final(self).databases@ == databases@,
            r == (match auto_select {
                Some(d) => if exists|i: int| 0 <= i < databases@.len() && (#[trigger] databases@[i])@ == d@ { Some(d) } else { None },
                None => None,
            }),
            r is Some ==> final(self).selected_database == r && final(self).tables@.len() == 0,
            r is None ==> final(self).selected_database == old(self).selected_database
                && final(self).tables@ == old(self).tables@,
            final(self).selected_table == old(self).selected_table,
            final(self).db_expanded == old(self).db_expanded,
            final(self).connection_name == old(self).connection_name,
    {
        let found = match &auto_select {
            Some(d) => {
                let n = databases.len();
                let mut i: usize = 0;
                let mut hit = false;
                while i < n
                    invariant
                        i <= n == databases@.len(),
                        hit == exists|k: int| 0 <= k < i && (#[trigger] databases@[k])@ == d@,
                    decreases n - i,
                {
                    if databases[i] == *d {
                        hit = true;
                    }
                    i = i + 1;
                }
                hit
            },
            None => false,
        };
        self.databases = databases;
        if found {
            self.selected_database = auto_select.clone();
            self.tables = Vec::new();
            auto_select
        } else {
            None
        }
    }

    /// What the table list shows when there are no tables: "No tables" once a
    /// database is selected, else a prompt; nothing when there are tables.
    pub fn empty_tables_text(&self) -> (r: Option<&'static str>)
        ensures
            match r {
                Some(t) => self.tables@.len() == 0 && t@ == (if self.selected_database is Some { "No tables"@ } else { "Select a database"@ }),
                None => self.tables@.len() > 0,
            },
    {
        if self.tables.len() > 0 {
            None
        } else if self.selected_database.is_some() {
            Some("No tables")
        } else {
            Some("Select a database")
        }
    }
}

} // verus!
