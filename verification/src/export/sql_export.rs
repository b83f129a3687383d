//! Export of a result as SQL `INSERT` statements.

use vstd::prelude::*;
use crate::db::datetime::{datetime_sql_text, datetime_to_sql_string};
use crate::db::types::{Column, QueryResult, Value};
use crate::strings::{
    concat3, double_char, doubled, i64_to_decimal, join, joined, lemma_views_push,
    push_char, signed_decimal, views,
};

verus! {

/// The lower-case hexadecimal digit of a nibble.
pub open spec fn hex_digit(d: u8) -> char {
    if d < 10 {
        ((48 + d) as u8) as char
    } else {
        ((87 + d) as u8) as char
    }
}

/// Lower-case hexadecimal text of bytes, two digits per byte, high nibble first.
pub open spec fn hex_lower(bytes: Seq<u8>) -> Seq<char>
    decreases bytes.len(),
{
    if bytes.len() == 0 {
        Seq::empty()
    } else {
        hex_lower(bytes.drop_last()).push(hex_digit(bytes.last() / 16)).push(hex_digit(bytes.last() % 16))
    }
}

/// Calls `hex::encode`: lower-case hexadecimal text of the bytes, two digits per
/// byte, high nibble first (the crate's `HEX_CHARS_LOWER` table).
#[verifier::external_body]
fn hex_encode(bytes: &Vec<u8>) -> (r: String)
    ensures
        r@ == hex_lower(bytes@),
{
    hex::encode(bytes)
}

/// A value written as a SQL literal.
pub open spec fn sql_literal_text(v: Value) -> Seq<char> {
    match v {
        Value::Null => "NULL"@,
        Value::Bool(b) => if b { "TRUE"@ } else { "FALSE"@ },
        Value::Int(i) => signed_decimal(i as int),
        Value::Float(t) => t@,
        Value::String(s) => seq!['\''] + doubled(s@, '\'') + seq!['\''],
        Value::Bytes(b) => "X'"@ + hex_lower(b@) + "'"@,
        Value::DateTime(d) => seq!['\''] + datetime_sql_text(d) + seq!['\''],
        Value::RawSql(e) => e@,
    }
}

/// Writes a value as a SQL literal: strings quoted with `'` doubled, bytes as
/// `X'..'` hex, date-times quoted, raw SQL as it is.
pub fn sql_literal(v: &Value) -> (r: String)
    requires
        v.wf(),
    ensures
        r@ == sql_literal_text(*v),
{
    match v {
        Value::Null => String::from_str("NULL"),
        Value::Bool(b) => if *b { String::from_str("TRUE") } else { String::from_str("FALSE") },
        Value::Int(i) => i64_to_decimal(*i),
        Value::Float(t) => t.clone(),
        Value::String(s) => {
            let inner = double_char(s.as_str(), '\'');
            let mut r = String::new();
            push_char(&mut r, '\'');
            r.append(inner.as_str());
            push_char(&mut r, '\'');
            assert(r@ =~= sql_literal_text(*v));
            r
        },
        Value::Bytes(b) => {
            let h = hex_encode(b);
            concat3("X'", h.as_str(), "'")
        },
        Value::DateTime(d) => {
            let t = datetime_to_sql_string(d);
            let mut r = String::new();
            push_char(&mut r, '\'');
            r.append(t.as_str());
            push_char(&mut r, '\'');
            assert(r@ =~= sql_literal_text(*v));
            r
        },
        Value::RawSql(e) => e.clone(),
    }
}

/// The names of the columns.
pub open spec fn column_names(cols: Seq<Column>) -> Seq<Seq<char>> {
    cols.map_values(|c: Column| c.name@)
}

/// The literals of a row.
pub open spec fn row_literals(row: Seq<Value>) -> Seq<Seq<char>> {
    row.map_values(|v: Value| sql_literal_text(v))
}

/// The `INSERT` statement of one row.
pub open spec fn insert_statement(table: Seq<char>, cols: Seq<Column>, row: Seq<Value>) -> Seq<char> {
    "INSERT INTO "@ + table + " ("@ + joined(column_names(cols), ", "@) + ") VALUES ("@ + joined(row_literals(row), ", "@) + ");"@
}

/// The statements of all rows, one per line.
pub open spec fn sql_export_text(result: QueryResult, table: Seq<char>) -> Seq<char> {
    joined(result.rows@.map_values(|row: Vec<Value>| insert_statement(table, result.columns@, row@)), "\n"@)
}

pub(crate) fn column_name_list(cols: &Vec<Column>) -> (r: Vec<String>)
    ensures
        views(r@) == column_names(cols@),
{
    let mut r: Vec<String> = Vec::new();
    let mut i: usize = 0;
    while i < cols.len()
        invariant
            i <= cols@.len(),
            views(r@) == column_names(cols@.take(i as int)),
        decreases cols@.len() - i,
    {
        let name = cols[i].name.clone();
        let ghost old_r = r@;
        r.push(name);
        proof {
            lemma_views_push(old_r, name);
            assert(column_names(cols@.take(i + 1)) =~= column_names(cols@.take(i as int)).push(cols@[i as int].name@));
        }
        i = i + 1;
    }
    proof {
        assert(cols@.take(cols@.len() as int) =~= cols@);
    }
    r
}

fn literal_list(row: &Vec<Value>) -> (r: Vec<String>)
    requires
        forall|j: int| 0 <= j < row@.len() ==> (#[trigger] row@[j]).wf(),
    ensures
        views(r@) == row_literals(row@),
{
    let mut r: Vec<String> = Vec::new();
    let mut i: usize = 0;
    while i < row.len()
        invariant
            i <= row@.len(),
            forall|j: int| 0 <= j < row@.len() ==> (#[trigger] row@[j]).wf(),
            views(r@) == row_literals(row@.take(i as int)),
        decreases row@.len() - i,
    {
        let lit = sql_literal(&row[i]);
        let ghost old_r = r@;
        r.push(lit);
        proof {
            lemma_views_push(old_r, lit);
            assert(row_literals(row@.take(i + 1)) =~= row_literals(row@.take(i as int)).push(sql_literal_text(row@[i as int])));
        }
        i = i + 1;
    }
    proof {
        assert(row@.take(row@.len() as int) =~= row@);
    }
    r
}

/// Writes every row of the result as an `INSERT INTO <table> (<columns>) VALUES (<literals>);`
/// statement, one statement per line.
pub fn export(result: &QueryResult, table_name: &str) -> (r: String)
    requires
        result.wf(),
    ensures
        r@ == sql_export_text(*result, table_name@),
{
    let names = column_name_list(&result.columns);
    let cols_joined = join(&names, ", ");
    let mut lines: Vec<String> = Vec::new();
    let n = result.rows.len();
    let mut i: usize = 0;
    let ghost stmts = result.rows@.map_values(|row: Vec<Value>| insert_statement(table_name@, result.columns@, row@));
    while i < n
        invariant
            i <= n == result.rows@.len(),
            result.wf(),
            cols_joined@ == joined(column_names(result.columns@), ", "@),
            stmts == result.rows@.map_values(|row: Vec<Value>| insert_statement(table_name@, result.columns@, row@)),
            views(lines@) == stmts.take(i as int),
        decreases n - i,
    {
        let row = &result.rows[i];
        proof {
            assert forall|j: int| 0 <= j < row@.len() implies (#[trigger] row@[j]).wf() by {
                assert(result.rows@[i as int]@[j].wf());
            }
        }
        let lits = literal_list(row);
        let values = join(&lits, ", ");
        let mut line = concat3("INSERT INTO ", table_name, " (");
        line.append(cols_joined.as_str());
        line.append(") VALUES (");
        line.append(values.as_str());
        line.append(");");
        let ghost old_lines = lines@;
        lines.push(line);
        proof {
            lemma_views_push(old_lines, line);
            assert(line@ =~= insert_statement(table_name@, result.columns@, row@));
            assert(stmts.take(i + 1) =~= stmts.take(i as int).push(stmts[i as int]));
        }
        i = i + 1;
    }
    proof {
        assert(stmts.take(n as int) =~= stmts);
    }
    join(&lines, "\n")
}

} // verus!
