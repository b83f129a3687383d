//! Export of a result as JSON: one object per row, keyed by column name. The
//! library pairs each value with its key and gives its JSON form; the JSON text
//! itself is written by `serde_json` outside the library, since floating-point
//! values pass through it.

use vstd::prelude::*;
use crate::db::types::{Column, QueryResult, Value, ValueView};

verus! {

/// The key of the value at position `i` of a row: its column's name, or
/// "unknown" past the last column.
pub open spec fn json_key(cols: Seq<Column>, i: int) -> Seq<char> {
    if 0 <= i < cols.len() { cols[i].name@ } else { "unknown"@ }
}

/// A row's (key, value) pairs, in the row's order.
pub open spec fn json_entries(cols: Seq<Column>, row: Seq<Value>) -> Seq<(Seq<char>, ValueView)> {
    Seq::new(row.len(), |i: int| (json_key(cols, i), row[i]@))
}

/// The (key, value) pairs of one row.
pub fn row_entries(cols: &Vec<Column>, row: &Vec<Value>) -> (r: Vec<(String, Value)>)
    requires
        forall|j: int| 0 <= j < row@.len() ==> (#[trigger] row@[j]).wf(),
    ensures
        r@.map_values(|p: (String, Value)| (p.0@, p.1@)) == json_entries(cols@, row@),
        forall|j: int| 0 <= j < r@.len() ==> (#[trigger] r@[j]).1.wf(),
{
    let mut r: Vec<(String, Value)> = Vec::new();
    let n = row.len();
    let mut i: usize = 0;
    while i < n
        invariant
            i <= n == row@.len(),
            forall|j: int| 0 <= j < row@.len() ==> (#[trigger] row@[j]).wf(),
            r@.len() == i,
            forall|j: int| 0 <= j < i ==> ((#[trigger] r@[j]).0@, r@[j].1@) == json_entries(cols@, row@)[j],
            forall|j: int| 0 <= j < r@.len() ==> (#[trigger] r@[j]).1.wf(),
        decreases n - i,
    {
        let key = if i < cols.len() { cols[i].name.clone() } else { String::from_str("unknown") };
        r.push((key, row[i].deep_copy()));
        i = i + 1;
    }
    proof {
        assert(r@.map_values(|p: (String, Value)| (p.0@, p.1@)) =~= json_entries(cols@, row@));
    }
    r
}

/// Every row's (key, value) pairs, row by row.
pub fn json_rows(result: &QueryResult) -> (r: Vec<Vec<(String, Value)>>)
    requires
        result.wf(),
    ensures
        r@.len() == result.rows@.len(),
        forall|i: int| 0 <= i < r@.len() ==>
            (#[trigger] r@[i])@.map_values(|p: (String, Value)| (p.0@, p.1@)) == json_entries(result.columns@, result.rows@[i]@),
{
    let mut r: Vec<Vec<(String, Value)>> = Vec::new();
    let n = result.rows.len();
    let mut i: usize = 0;
    while i < n
        invariant
            i <= n == result.rows@.len(),
            result.wf(),
            r@.len() == i,
            forall|k: int| 0 <= k < i ==>
                (#[trigger] r@[k])@.map_values(|p: (String, Value)| (p.0@, p.1@)) == json_entries(result.columns@, result.rows@[k]@),
        decreases n - i,
    {
        let row = &result.rows[i];
        proof {
            assert forall|j: int| 0 <= j < row@.len() implies (#[trigger] row@[j]).wf() by {
                assert(result.rows@[i as int]@[j].wf());
            }
        }
        r.push(row_entries(&result.columns, row));
        i = i + 1;
    }
    r
}

/// What a value becomes in JSON: null, a boolean, an integer, a number given by
/// its decimal text, or a string.
#[derive(Debug, Clone, PartialEq)]
pub enum JsonScalar {
    Null,
    Bool(bool),
    Int(i64),
    Float(String),
    Text(String),
}

/// The JSON form of a value: null, booleans and integers as themselves, a float
/// as a number, and every other value (strings, bytes, date-times, SQL
/// expressions) as a string holding its display text.
pub fn json_scalar(v: &Value) -> (r: JsonScalar)
    requires
        v.wf(),
    ensures
        match *v {
            Value::Null => r is Null,
            Value::Bool(b) => r == JsonScalar::Bool(b),
            Value::Int(i) => r == JsonScalar::Int(i),
            Value::Float(t) => r matches JsonScalar::Float(x) && x@ == t@,
            _ => r matches JsonScalar::Text(x) && x@ == v.text(),
        },
{
    match v {
        Value::Null => JsonScalar::Null,
        Value::Bool(b) => JsonScalar::Bool(*b),
        Value::Int(i) => JsonScalar::Int(*i),
        Value::Float(t) => JsonScalar::Float(t.clone()),
        _ => JsonScalar::Text(v.to_display_string()),
    }
}

} // verus!
