//! Values, result sets and SQL dialects.

use vstd::prelude::*;
use vstd::string::StrSliceExecFns;
use crate::db::datetime::{DateTimeValue, datetime_text, datetime_to_string};
use crate::strings::{
    concat3, double_char, doubled, i64_to_decimal, signed_decimal, decimal, trim, trimmed,
    str_eq_ignore_ascii_case, eq_ignore_ascii_case, u64_to_decimal,
};

verus! {

/// A single value from a database cell.
///
/// A floating-point value is held as the decimal text that `f64::to_string` gives it;
/// that text is all the logic reads of it.
#[derive(Debug, Clone, PartialEq)]
pub enum Value {
    Null,
    Bool(bool),
    Int(i64),
    Float(String),
    String(String),
    Bytes(Vec<u8>),
    DateTime(DateTimeValue),
    RawSql(String),
}

/// What a value holds, with strings and bytes seen as sequences.
pub enum ValueView {
    Null,
    Bool(bool),
    Int(i64),
    Float(Seq<char>),
    String(Seq<char>),
    Bytes(Seq<u8>),
    DateTime(DateTimeValue),
    RawSql(Seq<char>),
}

impl View for Value {
    type V = ValueView;

    open spec fn view(&self) -> ValueView {
        match self {
            Value::Null => ValueView::Null,
            Value::Bool(b) => ValueView::Bool(*b),
            Value::Int(i) => ValueView::Int(*i),
            Value::Float(t) => ValueView::Float(t@),
            Value::String(s) => ValueView::String(s@),
            Value::Bytes(b) => ValueView::Bytes(b@),
            Value::DateTime(d) => ValueView::DateTime(*d),
            Value::RawSql(e) => ValueView::RawSql(e@),
        }
    }
}

/// The views of a list of values.
pub open spec fn value_views(vs: Seq<Value>) -> Seq<ValueView> {
    vs.map_values(|v: Value| v@)
}

impl Value {
    /// A copy of the value that holds the same contents.
    pub fn deep_copy(&self) -> (r: Value)
        ensures
            r@ == self@,
            r.wf() == self.wf(),
    {
        match self {
            Value::Null => Value::Null,
            Value::Bool(b) => Value::Bool(*b),
            Value::Int(i) => Value::Int(*i),
            Value::Float(t) => Value::Float(t.clone()),
            Value::String(s) => Value::String(s.clone()),
            Value::Bytes(b) => Value::Bytes(b.clone()),
            Value::DateTime(d) => Value::DateTime(*d),
            Value::RawSql(e) => Value::RawSql(e.clone()),
        }
    }

    /// Values are well formed when a date-time names a real date-time.
    pub open spec fn wf(&self) -> bool {
        match self {
            Value::DateTime(d) => d.valid(),
            _ => true,
        }
    }

    /// The text a value is displayed with.
    pub open spec fn text(&self) -> Seq<char> {
        match self {
            Value::Null => "NULL"@,
            Value::Bool(b) => if *b { "true"@ } else { "false"@ },
            Value::Int(i) => signed_decimal(*i as int),
            Value::Float(t) => t@,
            Value::String(s) => s@,
            Value::Bytes(b) => "<"@ + decimal(b@.len()) + " bytes>"@,
            Value::DateTime(d) => datetime_text(*d),
            Value::RawSql(e) => e@,
        }
    }

    /// The text a value is displayed with (what `Display` writes).
    pub fn to_display_string(&self) -> (r: String)
        requires
            self.wf(),
        ensures
            r@ == self.text(),
    {
        match self {
            Value::Null => String::from_str("NULL"),
            Value::Bool(b) => if *b { String::from_str("true") } else { String::from_str("false") },
            Value::Int(i) => i64_to_decimal(*i),
            Value::Float(t) => t.clone(),
            Value::String(s) => s.clone(),
            Value::Bytes(b) => {
                let n = u64_to_decimal(b.len() as u64);
                concat3("<", n.as_str(), " bytes>")
            },
            Value::DateTime(d) => datetime_to_string(d),
            Value::RawSql(e) => e.clone(),
        }
    }
}

/// Metadata about a single column in a table.
#[derive(Debug, Clone)]
pub struct Column {
    pub name: String,
    pub data_type: String,
    pub nullable: bool,
    pub default_value: Option<String>,
    pub is_primary_key: bool,
    pub extra: String,
}

/// An index on a table.
#[derive(Debug, Clone)]
pub struct Index {
    pub name: String,
    pub columns: Vec<String>,
    pub unique: bool,
}

/// A foreign key constraint on a table.
#[derive(Debug, Clone)]
pub struct ForeignKey {
    pub column: String,
    pub ref_database: String,
    pub ref_table: String,
    pub ref_column: String,
}

/// The result of a query execution.
#[derive(Debug, Clone)]
pub struct QueryResult {
    pub columns: Vec<Column>,
    pub rows: Vec<Vec<Value>>,
    pub affected_rows: u64,
    pub execution_time_ms: u64,
}

impl QueryResult {
    /// A result with no columns and no rows.
    pub fn empty() -> (r: QueryResult)
        ensures
            r.columns@.len() == 0,
            r.rows@.len() == 0,
            r.affected_rows == 0,
            r.execution_time_ms == 0,
    {
        QueryResult { columns: Vec::new(), rows: Vec::new(), affected_rows: 0, execution_time_ms: 0 }
    }

    /// Every value of the result is well formed.
    pub open spec fn wf(&self) -> bool {
        forall|i: int, j: int| 0 <= i < self.rows@.len() && 0 <= j < self.rows@[i]@.len() ==> (#[trigger] self.rows@[i]@[j]).wf()
    }
}

/// SQL dialect for quoting identifiers and generating SQL.
#[derive(Debug, Clone, Copy, PartialEq, Eq, Structural)]
pub enum Dialect {
    MySql,
    PostgreSql,
    Sqlite,
}

/// The quote character of a dialect's identifiers.
pub open spec fn identifier_quote(d: Dialect) -> char {
    match d {
        Dialect::MySql => '`',
        _ => '"',
    }
}

/// `name` as a quoted identifier: the quote character, the name with that
/// character doubled, and the quote character again.
pub open spec fn quoted_identifier(d: Dialect, name: Seq<char>) -> Seq<char> {
    let q = identifier_quote(d);
    seq![q] + doubled(name, q) + seq![q]
}

impl Dialect {
    /// Quotes an identifier for this dialect.
    pub fn quote_identifier(&self, name: &str) -> (r: String)
        ensures
            r@ == quoted_identifier(*self, name@),
    {
        let q = match self {
            Dialect::MySql => '`',
            Dialect::PostgreSql => '"',
            Dialect::Sqlite => '"',
        };
        let mut r = String::new();
        crate::strings::push_char(&mut r, q);
        let inner = double_char(name, q);
        r.append(inner.as_str());
        crate::strings::push_char(&mut r, q);
        proof {
            assert(r@ =~= quoted_identifier(*self, name@));
        }
        r
    }
}

/// Keywords that stand for values in SQL.
pub open spec fn is_value_keyword(t: Seq<char>) -> bool {
    ||| eq_ignore_ascii_case(t, "NULL"@)
    ||| eq_ignore_ascii_case(t, "DEFAULT"@)
    ||| eq_ignore_ascii_case(t, "TRUE"@)
    ||| eq_ignore_ascii_case(t, "FALSE"@)
    ||| eq_ignore_ascii_case(t, "CURRENT_TIMESTAMP"@)
    ||| eq_ignore_ascii_case(t, "CURRENT_DATE"@)
    ||| eq_ignore_ascii_case(t, "CURRENT_TIME"@)
}

/// A call such as `NOW()`: starts with an ASCII letter or `_`, holds a `(`
/// and ends with `)`.
pub open spec fn looks_like_call(t: Seq<char>) -> bool {
    &&& t.len() > 0
    &&& (('a' <= t[0] && t[0] <= 'z') || ('A' <= t[0] && t[0] <= 'Z') || t[0] == '_')
    &&& t.contains('(')
    &&& t.last() == ')'
}

/// Text that reads as a SQL expression rather than a literal: after trimming,
/// a value keyword (any ASCII case) or a function-call shape.
pub open spec fn sql_expression_like(s: Seq<char>) -> bool {
    is_value_keyword(trimmed(s)) || looks_like_call(trimmed(s))
}

/// Returns true if `s` looks like a SQL expression rather than a literal value.
///
/// Uses a keyword list and a function-call heuristic. Known trade-off: strings
/// like `"John (Jr)"` (starts with alpha, contains `(`, ends with `)`) are
/// detected as SQL expressions.
pub fn is_sql_expression(s: &str) -> (r: bool)
    ensures
        r == sql_expression_like(s@),
{
    let t = trim(s);
    if str_eq_ignore_ascii_case(t, "NULL") || str_eq_ignore_ascii_case(t, "DEFAULT")
        || str_eq_ignore_ascii_case(t, "TRUE") || str_eq_ignore_ascii_case(t, "FALSE")
        || str_eq_ignore_ascii_case(t, "CURRENT_TIMESTAMP")
        || str_eq_ignore_ascii_case(t, "CURRENT_DATE")
        || str_eq_ignore_ascii_case(t, "CURRENT_TIME") {
        return true;
    }
    let n = t.unicode_len();
    if n == 0 {
        return false;
    }
    let first = t.get_char(0);
    if !(('a' <= first && first <= 'z') || ('A' <= first && first <= 'Z') || first == '_') {
        return false;
    }
    if t.get_char(n - 1) != ')' {
        return false;
    }
    let mut i: usize = 0;
    while i < n
        invariant
            i <= n == t@.len(),
            n > 0,
            t@ == trimmed(s@),
            t@.last() == ')',
            ('a' <= t@[0] && t@[0] <= 'z') || ('A' <= t@[0] && t@[0] <= 'Z') || t@[0] == '_',
            !is_value_keyword(t@),
            forall|j: int| 0 <= j < i ==> t@[j] != '(',
        decreases n - i,
    {
        if t.get_char(i) == '(' {
            proof {
                assert(t@.contains('('));
            }
            return true;
        }
        i = i + 1;
    }
    false
}

/// The value user-typed text stands for: a SQL expression becomes raw SQL
/// (trimmed), anything else a string.
pub open spec fn text_value(s: Seq<char>) -> ValueView {
    if sql_expression_like(s) {
        ValueView::RawSql(trimmed(s))
    } else {
        ValueView::String(s)
    }
}

/// Converts user-typed text into a value: a SQL expression becomes raw SQL
/// (trimmed), anything else a string.
pub fn text_to_value(s: &str) -> (r: Value)
    ensures
        r@ == text_value(s@),
        r.wf(),
        match r {
            Value::RawSql(e) => sql_expression_like(s@) && e@ == trimmed(s@),
            Value::String(t) => !sql_expression_like(s@) && t@ == s@,
            _ => false,
        },
{
    if is_sql_expression(s) {
        Value::RawSql(crate::strings::to_owned_string(trim(s)))
    } else {
        Value::String(crate::strings::to_owned_string(s))
    }
}

} // verus!
