//! Saved connection profiles: what a profile holds, the key its password is
//! stored under, and how the connection form becomes a profile.

use vstd::prelude::*;
use vstd::string::StringExecFns;
use vstd::string::StrSliceExecFns;
use crate::export::sql_export::hex_digit;
use crate::strings::{concat2, parse_unsigned, parse_unsigned_decimal, push_char};

verus! {

/// The database engines a profile can connect to.
#[derive(Debug, Clone, Copy, PartialEq, Eq, Structural)]
pub enum DatabaseEngine {
    MySql,
    PostgreSql,
    Sqlite,
}

/// The name an engine is shown with.
pub open spec fn engine_name(e: DatabaseEngine) -> Seq<char> {
    match e {
        DatabaseEngine::MySql => "MySQL"@,
        DatabaseEngine::PostgreSql => "PostgreSQL"@,
        DatabaseEngine::Sqlite => "SQLite"@,
    }
}

/// The port the connection form proposes for an engine (none for SQLite).
pub open spec fn engine_default_port(e: DatabaseEngine) -> Seq<char> {
    match e {
        DatabaseEngine::MySql => "3306"@,
        DatabaseEngine::PostgreSql => "5432"@,
        DatabaseEngine::Sqlite => ""@,
    }
}

impl DatabaseEngine {
    /// The name the engine is shown with: "MySQL", "PostgreSQL" or "SQLite".
    pub fn to_display_string(&self) -> (r: String)
        ensures
            r@ == engine_name(*self),
    {
        match self {
            DatabaseEngine::MySql => String::from_str("MySQL"),
            DatabaseEngine::PostgreSql => String::from_str("PostgreSQL"),
            DatabaseEngine::Sqlite => String::from_str("SQLite"),
        }
    }

    /// The port text the connection form switches to when this engine is picked.
    pub fn default_port(&self) -> (r: &'static str)
        ensures
            r@ == engine_default_port(*self),
    {
        match self {
            DatabaseEngine::MySql => "3306",
            DatabaseEngine::PostgreSql => "5432",
            DatabaseEngine::Sqlite => "",
        }
    }
}

/// A saved connection profile. Passwords are not held here: they live in the
/// operating system's keychain, under `keyring_key`.
#[derive(Debug, Clone)]
pub struct ConnectionProfile {
    pub id: String,
    pub name: String,
    pub engine: DatabaseEngine,
    pub host: String,
    pub port: u16,
    pub user: String,
    pub default_database: Option<String>,
    /// For SQLite, the file path.
    pub file_path: Option<String>,
}

/// The keychain entry name of a profile's password.
pub open spec fn keyring_key_of(id: Seq<char>) -> Seq<char> {
    "querybox:"@ + id
}

/// A copy of an optional string.
pub fn copy_opt(s: &Option<String>) -> (r: Option<String>)
    ensures
        r == *s,
{
    match s {
        Some(v) => Some(v.clone()),
        None => None,
    }
}

impl ConnectionProfile {
    /// The keychain entry name of this profile's password: `querybox:` and the id.
    pub fn keyring_key(&self) -> (r: String)
        ensures
            r@ == keyring_key_of(self.id@),
    {
        concat2("querybox:", self.id.as_str())
    }

    /// A field-by-field copy.
    pub fn duplicate(&self) -> (r: ConnectionProfile)
        ensures
            r == *self,
    {
        ConnectionProfile {
            id: self.id.clone(),
            name: self.name.clone(),
            engine: self.engine,
            host: self.host.clone(),
            port: self.port,
            user: self.user.clone(),
            default_database: copy_opt(&self.default_database),
            file_path: copy_opt(&self.file_path),
        }
    }
}

/// The port a form's port text stands for: the text read as a `u16`, or 3306
/// when it is not one.
pub open spec fn form_port(text: Seq<char>) -> u16 {
    match parse_unsigned(text, 65535) {
        Some(v) => v as u16,
        None => 3306,
    }
}

/// The profile the connection form describes. A form that edits a saved
/// profile keeps its id; a new one gets `fresh_id`. An empty database field
/// means no default database; the form never sets a file path.
pub fn profile_from_form(
    form_id: Option<String>,
    fresh_id: String,
    name: String,
    engine: DatabaseEngine,
    host: String,
    port_text: &str,
    user: String,
    database: String,
) -> (r: ConnectionProfile)
    ensures
        r.id == (match form_id { Some(i) => i, None => fresh_id }),
        r.name == name,
        r.engine == engine,
        r.host == host,
        r.port == form_port(port_text@),
        r.user == user,
        r.default_database == (if database@.len() == 0 { None } else { Some(database) }),
        r.file_path is None,
{
    let port: u16 = match parse_unsigned_decimal(port_text, 65535) {
        Some(v) => v as u16,
        None => 3306,
    };
    let id = match form_id {
        Some(i) => i,
        None => fresh_id,
    };
    let default_database = if database.as_str().unicode_len() == 0 { None } else { Some(database) };
    ConnectionProfile { id, name, engine, host, port, user, default_database, file_path: None }
}

// ── fresh profile ids ─────────────────────────────────────────────────────────

/// Lower-case hexadecimal digits of `n`, most significant first, no leading zeros.
pub open spec fn hex_text(n: nat) -> Seq<char>
    decreases n,
{
    if n < 16 {
        seq![hex_digit(n as u8)]
    } else {
        hex_text(n / 16).push(hex_digit((n % 16) as u8))
    }
}

fn hex_char(d: u128) -> (c: char)
    requires
        d < 16,
    ensures
        c == hex_digit(d as u8),
{
    let b: u8 = d as u8;
    if b < 10 {
        (48 + b) as char
    } else {
        (87 + b) as char
    }
}

/// A new profile id: the nanoseconds since the Unix epoch in lower-case hex.
pub fn profile_id_from_nanos(nanos: u128) -> (r: String)
    ensures
        r@ == hex_text(nanos as nat),
    decreases nanos,
{
    if nanos < 16 {
        let mut r = String::new();
        push_char(&mut r, hex_char(nanos));
        r
    } else {
        let mut r = profile_id_from_nanos(nanos / 16);
        push_char(&mut r, hex_char(nanos % 16));
        r
    }
}

} // verus!
