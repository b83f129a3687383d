//! What the database drivers compute from the rows the servers send back:
//! columns and indexes from catalog rows, the statements they send, and the
//! values of cells that need reading.

use vstd::prelude::*;
use vstd::utf8::*;
use crate::connection::profile::ConnectionProfile;
use crate::db::types::{Column, Index, Value};
use crate::db::DbError;
use crate::strings::{
    concat2, concat3, decimal, double_char, doubled, push_char, string_from_utf8, u64_to_decimal,
    views,
};
use vstd::string::StrSliceExecFns;

verus! {

// ── catalog rows ──────────────────────────────────────────────────────────────

/// A column described by an information-schema row: nullable when the
/// nullability text is "YES", a primary key when the key text is "PRI".
pub fn column_from_catalog(
    name: String,
    data_type: String,
    is_nullable: &str,
    default_value: Option<String>,
    key: &str,
    extra: String,
) -> (r: Column)
    ensures
        r.name == name,
        r.data_type == data_type,
        r.nullable == (is_nullable@ == "YES"@),
        r.default_value == default_value,
        r.is_primary_key == (key@ == "PRI"@),
        r.extra == extra,
{
    let nullable = crate::strings::str_equal(is_nullable, "YES");
    let is_primary_key = crate::strings::str_equal(key, "PRI");
    Column { name, data_type, nullable, default_value, is_primary_key, extra }
}

/// A column described by a row of SQLite's `PRAGMA table_info`: nullable when
/// `notnull` is 0, a primary key when `pk` is positive, no extra.
pub fn column_from_pragma(name: String, data_type: String, notnull: i32, default_value: Option<String>, pk: i32) -> (r: Column)
    ensures
        r.name == name,
        r.data_type == data_type,
        r.nullable == (notnull == 0),
        r.default_value == default_value,
        r.is_primary_key == (pk > 0),
        r.extra@ == Seq::<char>::empty(),
{
    Column { name, data_type, nullable: notnull == 0, default_value, is_primary_key: pk > 0, extra: String::new() }
}

/// An index row: the index's name, one of its columns, whether it is unique.
pub struct IndexRow {
    pub name: String,
    pub column: String,
    pub unique: bool,
}

/// The position of the first index with this name, if any.
pub open spec fn index_named(ixs: Seq<(Seq<char>, Seq<Seq<char>>, bool)>, name: Seq<char>) -> Option<int> {
    if exists|i: int| 0 <= i < ixs.len() && (#[trigger] ixs[i]).0 == name {
        Some(choose|i: int| 0 <= i < ixs.len() && (#[trigger] ixs[i]).0 == name
            && forall|j: int| 0 <= j < i ==> (#[trigger] ixs[j]).0 != name)
    } else {
        None
    }
}

/// The indexes that index rows describe, in the order of their first rows:
/// each row's column is added to the index of its name, and an index is unique
/// when its first row says so.
pub open spec fn grouped_indexes(rows: Seq<(Seq<char>, Seq<char>, bool)>) -> Seq<(Seq<char>, Seq<Seq<char>>, bool)>
    decreases rows.len(),
{
    if rows.len() == 0 {
        Seq::empty()
    } else {
        let prev = grouped_indexes(rows.drop_last());
        let (name, column, unique) = rows.last();
        match index_named(prev, name) {
            Some(i) => prev.update(i, (prev[i].0, prev[i].1.push(column), prev[i].2)),
            None => prev.push((name, seq![column], unique)),
        }
    }
}

/// An index seen as its name, its columns and its uniqueness.
pub open spec fn index_view(ix: Index) -> (Seq<char>, Seq<Seq<char>>, bool) {
    (ix.name@, views(ix.columns@), ix.unique)
}

/// Groups index rows into indexes.
pub fn group_indexes(rows: Vec<IndexRow>) -> (r: Vec<Index>)
    ensures
        r@.map_values(|ix: Index| index_view(ix))
            == grouped_indexes(rows@.map_values(|x: IndexRow| (x.name@, x.column@, x.unique))),
{
    let ghost rv = rows@.map_values(|x: IndexRow| (x.name@, x.column@, x.unique));
    let mut out: Vec<Index> = Vec::new();
    let n = rows.len();
    let mut i: usize = 0;
    while i < n
        invariant
            i <= n == rows@.len(),
            rv == rows@.map_values(|x: IndexRow| (x.name@, x.column@, x.unique)),
            out@.map_values(|ix: Index| index_view(ix)) == grouped_indexes(rv.take(i as int)),
        decreases n - i,
    {
        proof {
            assert(rv.take(i + 1).drop_last() =~= rv.take(i as int));
        }
        let row = &rows[i];
        let ghost prev = out@.map_values(|ix: Index| index_view(ix));
        let mut k: usize = 0;
        let mut found = false;
        while k < out.len() && !found
            invariant
                k <= out@.len(),
                prev == out@.map_values(|ix: Index| index_view(ix)),
                found ==> k < out@.len() && prev[k as int].0 == row.name@,
                forall|j: int| 0 <= j < k ==> (#[trigger] prev[j]).0 != row.name@,
            decreases out@.len() - k + (if found { 0int } else { 1int }),
        {
            if out[k].name == row.name {
                found = true;
            } else {
                k = k + 1;
            }
        }
        if found {
            proof {
                assert(prev[k as int].0 == row.name@);
                let c = choose|c: int| 0 <= c < prev.len() && (#[trigger] prev[c]).0 == row.name@
                    && forall|j: int| 0 <= j < c ==> (#[trigger] prev[j]).0 != row.name@;
                if c < k as int {
                    assert(prev[c].0 != row.name@);
                }
                if c > k as int {
                    assert(prev[k as int].0 != row.name@);
                }
                assert(c == k as int);
            }
            let mut ix = out.remove(k);
            let col = row.column.clone();
            proof {
                lemma_views_push_pub(ix.columns@, col);
            }
            ix.columns.push(col);
            out.insert(k, ix);
            proof {
                assert(out@.map_values(|ix: Index| index_view(ix)) =~= prev.update(k as int, (prev[k as int].0, prev[k as int].1.push(row.column@), prev[k as int].2)));
            }
        } else {
            proof {
                assert(!exists|c: int| 0 <= c < prev.len() && (#[trigger] prev[c]).0 == row.name@);
            }
            let cols = vec![row.column.clone()];
            let ix = Index { name: row.name.clone(), columns: cols, unique: row.unique };
            proof {
                assert(views(cols@) =~= seq![row.column@]);
                assert(out@.push(ix).map_values(|ix: Index| index_view(ix)) =~= prev.push(index_view(ix)));
            }
            out.push(ix);
        }
        i = i + 1;
    }
    proof {
        assert(rv.take(n as int) =~= rv);
    }
    out
}

proof fn lemma_views_push_pub(list: Seq<String>, s: String)
    ensures
        views(list.push(s)) == views(list).push(s@),
{
    crate::strings::lemma_views_push(list, s);
}

// ── statements the drivers send ───────────────────────────────────────────────

/// A SQLite pragma on a named object, the name quoted with `"` doubled inside.
pub open spec fn pragma_text(pragma: Seq<char>, name: Seq<char>) -> Seq<char> {
    "PRAGMA "@ + pragma + "(\""@ + doubled(name, '"') + "\")"@
}

/// `PRAGMA <pragma>("<name>")`, the name's `"` doubled.
pub fn pragma_statement(pragma: &str, name: &str) -> (r: String)
    ensures
        r@ == pragma_text(pragma@, name@),
{
    let mut r = concat3("PRAGMA ", pragma, "(\"");
    let q = double_char(name, '"');
    r.append(q.as_str());
    r.append("\")");
    r
}

/// The statement that switches a MySQL connection to a database: `USE` and the
/// name in backquotes, written as given.
pub fn use_database_statement(db: &str) -> (r: String)
    ensures
        r@ == "USE `"@ + db@ + "`"@,
{
    concat3("USE `", db, "`")
}

/// The connection string for PostgreSQL: host, port, user, password and the
/// default database (`postgres` when the profile names none).
pub open spec fn postgres_conn_text(p: ConnectionProfile, password: Seq<char>) -> Seq<char> {
    "host="@ + p.host@ + " port="@ + decimal(p.port as nat) + " user="@ + p.user@
        + " password="@ + password + " dbname="@
        + (match p.default_database { Some(d) => d@, None => "postgres"@ })
}

/// Builds the PostgreSQL connection string of a profile.
pub fn postgres_conn_string(p: &ConnectionProfile, password: &str) -> (r: String)
    ensures
        r@ == postgres_conn_text(*p, password@),
{
    let mut r = concat2("host=", p.host.as_str());
    r.append(" port=");
    let port = u64_to_decimal(p.port as u64);
    r.append(port.as_str());
    r.append(" user=");
    r.append(p.user.as_str());
    r.append(" password=");
    r.append(password);
    r.append(" dbname=");
    match &p.default_database {
        Some(d) => r.append(d.as_str()),
        None => r.append("postgres"),
    }
    proof {
        assert(r@ =~= postgres_conn_text(*p, password@));
    }
    r
}

/// The file a SQLite profile opens, or the connection error for a profile
/// without one.
pub fn sqlite_file_path(p: &ConnectionProfile) -> (r: Result<String, DbError>)
    ensures
        match p.file_path {
            Some(f) => (r matches Ok(s) && s == f),
            None => (r matches Err(DbError::Connection(m)) && m@ == "No file path specified for SQLite"@),
        },
{
    match &p.file_path {
        Some(f) => Ok(f.clone()),
        None => Err(DbError::Connection(String::from_str("No file path specified for SQLite"))),
    }
}

/// The databases of a SQLite connection: "main" alone.
pub fn sqlite_databases() -> (r: Vec<String>)
    ensures
        views(r@) == seq!["main"@],
{
    let r = vec![String::from_str("main")];
    proof {
        assert(views(r@) =~= seq!["main"@]);
    }
    r
}

// ── cell values ───────────────────────────────────────────────────────────────

/// Decimal digits of `n`, with zeros in front up to `width` characters.
pub open spec fn zero_padded(n: nat, width: nat) -> Seq<char> {
    let d = decimal(n);
    if d.len() < width { Seq::new((width - d.len()) as nat, |i: int| '0') + d } else { d }
}

/// `n` in decimal, zero-padded to `width` characters (what `{:0width$}` writes).
pub fn zero_pad(n: u64, width: usize) -> (r: String)
    ensures
        r@ == zero_padded(n as nat, width as nat),
{
    let d = u64_to_decimal(n);
    let len = d.as_str().unicode_len();
    if len >= width {
        return d;
    }
    let mut r = String::new();
    let mut i: usize = 0;
    while i < width - len
        invariant
            i <= width - len,
            r@ == Seq::new(i as nat, |j: int| '0'),
        decreases width - len - i,
    {
        push_char(&mut r, '0');
        proof {
            assert(r@ =~= Seq::new((i + 1) as nat, |j: int| '0'));
        }
        i = i + 1;
    }
    r.append(d.as_str());
    proof {
        assert(r@ =~= zero_padded(n as nat, width as nat));
    }
    r
}

/// The text of a MySQL date-time value: `YYYY-MM-DD HH:MM:SS`, each part zero-padded.
pub open spec fn mysql_date_text(year: u16, month: u8, day: u8, hour: u8, minute: u8, second: u8) -> Seq<char> {
    zero_padded(year as nat, 4) + "-"@ + zero_padded(month as nat, 2) + "-"@ + zero_padded(day as nat, 2)
        + " "@ + zero_padded(hour as nat, 2) + ":"@ + zero_padded(minute as nat, 2) + ":"@ + zero_padded(second as nat, 2)
}

/// Writes a MySQL date-time value (its microseconds are left out).
pub fn mysql_date_string(year: u16, month: u8, day: u8, hour: u8, minute: u8, second: u8) -> (r: String)
    ensures
        r@ == mysql_date_text(year, month, day, hour, minute, second),
{
    let mut r = zero_pad(year as u64, 4);
    r.append("-");
    let m = zero_pad(month as u64, 2);
    r.append(m.as_str());
    r.append("-");
    let d = zero_pad(day as u64, 2);
    r.append(d.as_str());
    r.append(" ");
    let h = zero_pad(hour as u64, 2);
    r.append(h.as_str());
    r.append(":");
    let mi = zero_pad(minute as u64, 2);
    r.append(mi.as_str());
    r.append(":");
    let s = zero_pad(second as u64, 2);
    r.append(s.as_str());
    proof {
        assert(r@ =~= mysql_date_text(year, month, day, hour, minute, second));
    }
    r
}

/// The text of a MySQL time value: a `-` when negative, then the hours (days
/// counted as 24 hours each), minutes and seconds, each at least two digits.
pub open spec fn mysql_time_text(negative: bool, days: u32, hours: u8, minutes: u8, seconds: u8) -> Seq<char> {
    (if negative { "-"@ } else { Seq::empty() }) + zero_padded((days * 24 + hours) as nat, 2)
        + ":"@ + zero_padded(minutes as nat, 2) + ":"@ + zero_padded(seconds as nat, 2)
}

/// Writes a MySQL time value (its microseconds are left out). The hours must
/// fit in a `u32`, as they are computed in one.
pub fn mysql_time_string(negative: bool, days: u32, hours: u8, minutes: u8, seconds: u8) -> (r: String)
    requires
        days * 24 + hours <= u32::MAX,
    ensures
        r@ == mysql_time_text(negative, days, hours, minutes, seconds),
{
    let total: u32 = days * 24 + hours as u32;
    let mut r = String::new();
    if negative {
        r.append("-");
    }
    let h = zero_pad(total as u64, 2);
    r.append(h.as_str());
    r.append(":");
    let m = zero_pad(minutes as u64, 2);
    r.append(m.as_str());
    r.append(":");
    let s = zero_pad(seconds as u64, 2);
    r.append(s.as_str());
    proof {
        assert(r@ =~= mysql_time_text(negative, days, hours, minutes, seconds));
    }
    r
}

/// A byte string from MySQL: text when it is UTF-8, else raw bytes.
pub fn bytes_to_value(b: Vec<u8>) -> (r: Value)
    ensures
        valid_utf8(b@) ==> (r matches Value::String(s) && s@ == decode_utf8(b@)),
        !valid_utf8(b@) ==> (r matches Value::Bytes(x) && x@ == b@),
{
    let copy = b.clone();
    match string_from_utf8(b) {
        Ok(s) => Value::String(s),
        Err(_) => Value::Bytes(copy),
    }
}

/// How a PostgreSQL column's values are read, by the type's name.
#[derive(Debug, Clone, Copy, PartialEq, Eq, Structural)]
pub enum PgReadAs {
    /// `int2`, `int4`: read as `i32`.
    Int32,
    /// `int8`: read as `i64`.
    Int64,
    /// `float4`: read as `f32`.
    Float32,
    /// `float8`: read as `f64`.
    Float64,
    /// `bool`.
    Bool,
    /// Everything else: read as text.
    Text,
}

/// How values of a PostgreSQL type are read.
pub open spec fn pg_read_as(pg_type: Seq<char>) -> PgReadAs {
    if pg_type == "int2"@ || pg_type == "int4"@ {
        PgReadAs::Int32
    } else if pg_type == "int8"@ {
        PgReadAs::Int64
    } else if pg_type == "float4"@ {
        PgReadAs::Float32
    } else if pg_type == "float8"@ {
        PgReadAs::Float64
    } else if pg_type == "bool"@ {
        PgReadAs::Bool
    } else {
        PgReadAs::Text
    }
}

/// Picks how to read values of a PostgreSQL type from its name.
pub fn pg_read_kind(pg_type: &str) -> (r: PgReadAs)
    ensures
        r == pg_read_as(pg_type@),
{
    if crate::strings::str_equal(pg_type, "int2") || crate::strings::str_equal(pg_type, "int4") {
        PgReadAs::Int32
    } else if crate::strings::str_equal(pg_type, "int8") {
        PgReadAs::Int64
    } else if crate::strings::str_equal(pg_type, "float4") {
        PgReadAs::Float32
    } else if crate::strings::str_equal(pg_type, "float8") {
        PgReadAs::Float64
    } else if crate::strings::str_equal(pg_type, "bool") {
        PgReadAs::Bool
    } else {
        PgReadAs::Text
    }
}

} // verus!
