//! The SQL statements the table view runs: a page of rows, the row count, an
//! update of edited cells and an insert of a new row.

use vstd::prelude::*;
use crate::db::types::{QueryResult, Value, ValueView, value_views};
use crate::query::filter::{Filter, FilterOp, filters_to_sql, where_clause, filters_params, string_values};
use crate::db::types::Dialect;
use crate::strings::{
    concat2, concat3, decimal, double_char, doubled, join, joined, lemma_views_push, parse_unsigned,
    parse_unsigned_decimal, push_char, signed_decimal, u64_to_decimal, i64_to_decimal, views,
};
use crate::ui::table_view::{CellEdit, NewRowInsert, RowUpdate};

verus! {

/// Rows shown per page.
pub const PAGE_SIZE: usize = 100;

/// `name` in backquotes with backquotes doubled.
pub open spec fn backquoted(name: Seq<char>) -> Seq<char> {
    seq!['`'] + doubled(name, '`') + seq!['`']
}

fn backquote(name: &str) -> (r: String)
    ensures
        r@ == backquoted(name@),
{
    let inner = double_char(name, '`');
    let mut r = String::new();
    push_char(&mut r, '`');
    r.append(inner.as_str());
    push_char(&mut r, '`');
    assert(r@ =~= backquoted(name@));
    r
}

// ── a page of a table ─────────────────────────────────────────────────────────

/// The table as `` `database`.`table` `` (names as given) followed by the WHERE clause.
pub open spec fn table_and_where(database: Seq<char>, table: Seq<char>, where_sql: Seq<char>) -> Seq<char> {
    "`"@ + database + "`.`"@ + table + "` "@ + where_sql
}

/// `SELECT * FROM` the table with the WHERE clause, limited to one page.
pub open spec fn page_select_sql(database: Seq<char>, table: Seq<char>, where_sql: Seq<char>, page: nat) -> Seq<char> {
    "SELECT * FROM "@ + table_and_where(database, table, where_sql) + " LIMIT "@ + decimal(PAGE_SIZE as nat)
        + " OFFSET "@ + decimal((page * PAGE_SIZE) as nat)
}

/// `SELECT COUNT(*) FROM` the table with the WHERE clause.
pub open spec fn count_sql(database: Seq<char>, table: Seq<char>, where_sql: Seq<char>) -> Seq<char> {
    "SELECT COUNT(*) FROM "@ + table_and_where(database, table, where_sql)
}

/// The statements that load page `page` of a table under filters, and count its
/// rows, with the parameters that both bind.
pub fn table_page_queries(database: &str, table: &str, filters: &[Filter], dialect: Dialect, page: usize) -> (r: (String, String, Vec<Value>))
    requires
        page * PAGE_SIZE <= usize::MAX,
    ensures
        r.0@ == page_select_sql(database@, table@, where_clause(filters@, dialect), page as nat),
        r.1@ == count_sql(database@, table@, where_clause(filters@, dialect)),
        string_values(r.2@, filters_params(filters@)),
{
    let (where_sql, params) = filters_to_sql(filters, dialect);
    let mut head = concat3("`", database, "`.`");
    head.append(table);
    head.append("` ");
    head.append(where_sql.as_str());
    let mut data = concat3("SELECT * FROM ", head.as_str(), " LIMIT ");
    let limit = u64_to_decimal(PAGE_SIZE as u64);
    data.append(limit.as_str());
    data.append(" OFFSET ");
    let offset = u64_to_decimal((page * PAGE_SIZE) as u64);
    data.append(offset.as_str());
    let count = concat2("SELECT COUNT(*) FROM ", head.as_str());
    proof {
        assert(data@ =~= page_select_sql(database@, table@, where_clause(filters@, dialect), page as nat));
        assert(count@ =~= count_sql(database@, table@, where_clause(filters@, dialect)));
    }
    (data, count, params)
}

/// The row count read from the first cell of a `COUNT(*)` result: an integer
/// as `u64` (negative ones wrap as `as` casts do), or text read as an unsigned
/// decimal; anything else gives none.
pub open spec fn count_of(result: QueryResult) -> Option<u64> {
    if result.rows@.len() == 0 || result.rows@[0]@.len() == 0 {
        None
    } else {
        match result.rows@[0]@[0] {
            Value::Int(n) => Some(n as u64),
            Value::String(s) => match parse_unsigned(s@, u64::MAX as nat) {
                Some(v) => Some(v as u64),
                None => None,
            },
            _ => None,
        }
    }
}

/// Reads the row count of a `COUNT(*)` result.
pub fn count_from_result(result: &QueryResult) -> (r: Option<u64>)
    ensures
        r == count_of(*result),
{
    if result.rows.len() == 0 || result.rows[0].len() == 0 {
        return None;
    }
    match &result.rows[0][0] {
        Value::Int(n) => Some(*n as u64),
        Value::String(s) => parse_unsigned_decimal(s.as_str(), u64::MAX),
        _ => None,
    }
}

// ── updating edited cells ─────────────────────────────────────────────────────

/// The SET item of an edit: raw SQL is written inline, anything else bound as `?`.
pub open spec fn set_item(e: CellEdit) -> Seq<char> {
    match e.new_value {
        Value::RawSql(x) => backquoted(e.column@) + " = "@ + x@,
        _ => backquoted(e.column@) + " = ?"@,
    }
}

/// The values that the SET items of the edits bind, in order.
pub open spec fn bound_edit_values(edits: Seq<CellEdit>) -> Seq<ValueView>
    decreases edits.len(),
{
    if edits.len() == 0 {
        Seq::empty()
    } else {
        let prev = bound_edit_values(edits.drop_last());
        match edits.last().new_value {
            Value::RawSql(_) => prev,
            v => prev.push(v@),
        }
    }
}

/// The UPDATE statement of a row's edits.
pub open spec fn update_sql(u: RowUpdate) -> Seq<char> {
    "UPDATE "@ + backquoted(u.database@) + "."@ + backquoted(u.table@) + " SET "@
        + joined(u.edits@.map_values(|e: CellEdit| set_item(e)), ", "@) + " WHERE "@
        + joined(u.pk_columns@.map_values(|c: String| backquoted(c@) + " = ?"@), " AND "@)
}

/// The parameters of the UPDATE statement: the bound edit values, then the key values.
pub open spec fn update_params(u: RowUpdate) -> Seq<ValueView> {
    bound_edit_values(u.edits@) + value_views(u.pk_values@)
}

/// Builds the UPDATE statement and its parameters for a row's edits.
pub fn update_statement(u: &RowUpdate) -> (r: (String, Vec<Value>))
    ensures
        r.0@ == update_sql(*u),
        value_views(r.1@) == update_params(*u),
{
    let mut sets: Vec<String> = Vec::new();
    let mut params: Vec<Value> = Vec::new();
    let n = u.edits.len();
    let mut i: usize = 0;
    while i < n
        invariant
            i <= n == u.edits@.len(),
            views(sets@) == u.edits@.take(i as int).map_values(|e: CellEdit| set_item(e)),
            value_views(params@) == bound_edit_values(u.edits@.take(i as int)),
        decreases n - i,
    {
        let e = &u.edits[i];
        let col = backquote(e.column.as_str());
        let ghost old_sets = sets@;
        let ghost old_params = params@;
        let item = match &e.new_value {
            Value::RawSql(x) => concat3(col.as_str(), " = ", x.as_str()),
            other => {
                params.push(other.deep_copy());
                proof {
                    assert(value_views(params@) =~= value_views(old_params).push(other@));
                }
                concat2(col.as_str(), " = ?")
            },
        };
        sets.push(item);
        proof {
            lemma_views_push(old_sets, item);
            assert(u.edits@.take(i + 1).drop_last() =~= u.edits@.take(i as int));
            assert(u.edits@.take(i + 1).map_values(|e: CellEdit| set_item(e)) =~= u.edits@.take(i as int).map_values(|e: CellEdit| set_item(e)).push(set_item(u.edits@[i as int])));
        }
        i = i + 1;
    }
    let mut wheres: Vec<String> = Vec::new();
    let m = u.pk_columns.len();
    let mut j: usize = 0;
    while j < m
        invariant
            j <= m == u.pk_columns@.len(),
            views(wheres@) == u.pk_columns@.take(j as int).map_values(|c: String| backquoted(c@) + " = ?"@),
        decreases m - j,
    {
        let col = backquote(u.pk_columns[j].as_str());
        let w = concat2(col.as_str(), " = ?");
        let ghost old_wheres = wheres@;
        wheres.push(w);
        proof {
            lemma_views_push(old_wheres, w);
            assert(u.pk_columns@.take(j + 1).map_values(|c: String| backquoted(c@) + " = ?"@) =~= u.pk_columns@.take(j as int).map_values(|c: String| backquoted(c@) + " = ?"@).push(backquoted(u.pk_columns@[j as int]@) + " = ?"@));
        }
        j = j + 1;
    }
    let k = u.pk_values.len();
    let mut t: usize = 0;
    let ghost base = params@;
    while t < k
        invariant
            t <= k == u.pk_values@.len(),
            value_views(params@) == value_views(base) + value_views(u.pk_values@.take(t as int)),
        decreases k - t,
    {
        let ghost old_params = params@;
        params.push(u.pk_values[t].deep_copy());
        proof {
            assert(value_views(params@) =~= value_views(old_params).push(u.pk_values@[t as int]@));
            assert(value_views(u.pk_values@.take(t + 1)) =~= value_views(u.pk_values@.take(t as int)).push(u.pk_values@[t as int]@));
        }
        t = t + 1;
    }
    proof {
        assert(u.edits@.take(n as int) =~= u.edits@);
        assert(u.pk_columns@.take(m as int) =~= u.pk_columns@);
        assert(u.pk_values@.take(k as int) =~= u.pk_values@);
    }
    let db = backquote(u.database.as_str());
    let tb = backquote(u.table.as_str());
    let set_list = join(&sets, ", ");
    let where_list = join(&wheres, " AND ");
    let mut sql = concat3("UPDATE ", db.as_str(), ".");
    sql.append(tb.as_str());
    sql.append(" SET ");
    sql.append(set_list.as_str());
    sql.append(" WHERE ");
    sql.append(where_list.as_str());
    proof {
        assert(sql@ =~= update_sql(*u));
    }
    (sql, params)
}

// ── inserting a new row ───────────────────────────────────────────────────────

/// The VALUES item of a value: raw SQL inline, anything else `?`.
pub open spec fn insert_item(v: Value) -> Seq<char> {
    match v {
        Value::RawSql(x) => x@,
        _ => "?"@,
    }
}

/// The values that an insert binds, in order.
pub open spec fn bound_insert_values(cvs: Seq<(String, Value)>) -> Seq<ValueView>
    decreases cvs.len(),
{
    if cvs.len() == 0 {
        Seq::empty()
    } else {
        let prev = bound_insert_values(cvs.drop_last());
        match cvs.last().1 {
            Value::RawSql(_) => prev,
            v => prev.push(v@),
        }
    }
}

/// The INSERT statement of a new row.
pub open spec fn insert_sql(ins: NewRowInsert) -> Seq<char> {
    "INSERT INTO "@ + backquoted(ins.database@) + "."@ + backquoted(ins.table@) + " ("@
        + joined(ins.column_values@.map_values(|cv: (String, Value)| backquoted(cv.0@)), ", "@) + ") VALUES ("@
        + joined(ins.column_values@.map_values(|cv: (String, Value)| insert_item(cv.1)), ", "@) + ")"@
}

/// Builds the INSERT statement and its parameters for a new row.
pub fn insert_statement(ins: &NewRowInsert) -> (r: (String, Vec<Value>))
    ensures
        r.0@ == insert_sql(*ins),
        value_views(r.1@) == bound_insert_values(ins.column_values@),
{
    let mut cols: Vec<String> = Vec::new();
    let mut marks: Vec<String> = Vec::new();
    let mut params: Vec<Value> = Vec::new();
    let n = ins.column_values.len();
    let mut i: usize = 0;
    while i < n
        invariant
            i <= n == ins.column_values@.len(),
            views(cols@) == ins.column_values@.take(i as int).map_values(|cv: (String, Value)| backquoted(cv.0@)),
            views(marks@) == ins.column_values@.take(i as int).map_values(|cv: (String, Value)| insert_item(cv.1)),
            value_views(params@) == bound_insert_values(ins.column_values@.take(i as int)),
        decreases n - i,
    {
        let cv = &ins.column_values[i];
        let c = backquote(cv.0.as_str());
        let ghost old_cols = cols@;
        let ghost old_marks = marks@;
        let ghost old_params = params@;
        cols.push(c);
        let mark = match &cv.1 {
            Value::RawSql(x) => x.clone(),
            other => {
                params.push(other.deep_copy());
                proof {
                    assert(value_views(params@) =~= value_views(old_params).push(other@));
                }
                String::from_str("?")
            },
        };
        marks.push(mark);
        proof {
            lemma_views_push(old_cols, c);
            lemma_views_push(old_marks, mark);
            assert(ins.column_values@.take(i + 1).drop_last() =~= ins.column_values@.take(i as int));
            assert(ins.column_values@.take(i + 1).map_values(|cv: (String, Value)| backquoted(cv.0@)) =~= ins.column_values@.take(i as int).map_values(|cv: (String, Value)| backquoted(cv.0@)).push(backquoted(ins.column_values@[i as int].0@)));
            assert(ins.column_values@.take(i + 1).map_values(|cv: (String, Value)| insert_item(cv.1)) =~= ins.column_values@.take(i as int).map_values(|cv: (String, Value)| insert_item(cv.1)).push(insert_item(ins.column_values@[i as int].1)));
        }
        i = i + 1;
    }
    proof {
        assert(ins.column_values@.take(n as int) =~= ins.column_values@);
    }
    let db = backquote(ins.database.as_str());
    let tb = backquote(ins.table.as_str());
    let col_list = join(&cols, ", ");
    let mark_list = join(&marks, ", ");
    let mut sql = concat3("INSERT INTO ", db.as_str(), ".");
    sql.append(tb.as_str());
    sql.append(" (");
    sql.append(col_list.as_str());
    sql.append(") VALUES (");
    sql.append(mark_list.as_str());
    sql.append(")");
    proof {
        assert(sql@ =~= insert_sql(*ins));
    }
    (sql, params)
}

// ── following a foreign key ───────────────────────────────────────────────────

/// The text a foreign-key value is filtered by: an integer in decimal, a string
/// as it is, anything else as displayed.
pub open spec fn fk_filter_text(v: Value) -> Seq<char> {
    match v {
        Value::Int(n) => signed_decimal(n as int),
        Value::String(s) => s@,
        other => other.text(),
    }
}

/// The filter that opens the referenced table at the referenced row: the
/// referenced column equals the value.
pub fn foreign_key_filter(column: &str, value: &Value) -> (r: Filter)
    requires
        value.wf(),
    ensures
        r.column@ == column@,
        r.op == FilterOp::Equals,
        r.value matches Some(t) && t@ == fk_filter_text(*value),
{
    let text = match value {
        Value::Int(n) => i64_to_decimal(*n),
        Value::String(s) => s.clone(),
        other => other.to_display_string(),
    };
    Filter { column: crate::strings::to_owned_string(column), op: FilterOp::Equals, value: Some(text) }
}

} // verus!
