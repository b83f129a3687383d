//! Column filters and the WHERE clause they produce.

use vstd::prelude::*;
use vstd::string::StrSliceExecFns;
use vstd::string::StringExecFns;
use crate::db::types::{Dialect, Value, quoted_identifier};
use crate::strings::{
    concat2, concat3, join, joined, lemma_trim_map_push, lemma_views_push, trim, trimmed, views,
    to_owned_string,
};

verus! {

/// A comparison that a filter applies to a column.
#[derive(Debug, Clone, Copy, PartialEq, Eq, Structural)]
pub enum FilterOp {
    Equals,
    NotEquals,
    GreaterThan,
    LessThan,
    GreaterOrEqual,
    LessOrEqual,
    Like,
    NotLike,
    StartsWith,
    EndsWith,
    Contains,
    NotContains,
    IsNull,
    IsNotNull,
    In,
    NotIn,
    Between,
}

/// Every operator, in the order the filter form lists them.
pub open spec fn all_ops() -> Seq<FilterOp> {
    seq![
        FilterOp::Equals,
        FilterOp::NotEquals,
        FilterOp::GreaterThan,
        FilterOp::LessThan,
        FilterOp::GreaterOrEqual,
        FilterOp::LessOrEqual,
        FilterOp::Like,
        FilterOp::NotLike,
        FilterOp::StartsWith,
        FilterOp::EndsWith,
        FilterOp::Contains,
        FilterOp::NotContains,
        FilterOp::IsNull,
        FilterOp::IsNotNull,
        FilterOp::In,
        FilterOp::NotIn,
        FilterOp::Between,
    ]
}

/// The label an operator is shown with.
pub open spec fn op_label(op: FilterOp) -> Seq<char> {
    match op {
        FilterOp::Equals => "= equals"@,
        FilterOp::NotEquals => "≠ not equals"@,
        FilterOp::GreaterThan => "> greater than"@,
        FilterOp::LessThan => "< less than"@,
        FilterOp::GreaterOrEqual => "≥ greater or equal"@,
        FilterOp::LessOrEqual => "≤ less or equal"@,
        FilterOp::Like => "~ LIKE pattern"@,
        FilterOp::NotLike => "!~ NOT LIKE pattern"@,
        FilterOp::StartsWith => "starts with"@,
        FilterOp::EndsWith => "ends with"@,
        FilterOp::Contains => "contains"@,
        FilterOp::NotContains => "does not contain"@,
        FilterOp::IsNull => "is null"@,
        FilterOp::IsNotNull => "is not null"@,
        FilterOp::In => "IN (a, b, ...)"@,
        FilterOp::NotIn => "NOT IN (a, b, ...)"@,
        FilterOp::Between => "BETWEEN a AND b"@,
    }
}

/// Whether an operator compares against a value (all but the null tests).
pub open spec fn op_needs_value(op: FilterOp) -> bool {
    !(op == FilterOp::IsNull || op == FilterOp::IsNotNull)
}

impl FilterOp {
    /// Every operator, in the order the filter form lists them.
    pub fn all() -> (r: Vec<FilterOp>)
        ensures
            r@ == all_ops(),
    {
        let r = vec![
            FilterOp::Equals,
            FilterOp::NotEquals,
            FilterOp::GreaterThan,
            FilterOp::LessThan,
            FilterOp::GreaterOrEqual,
            FilterOp::LessOrEqual,
            FilterOp::Like,
            FilterOp::NotLike,
            FilterOp::StartsWith,
            FilterOp::EndsWith,
            FilterOp::Contains,
            FilterOp::NotContains,
            FilterOp::IsNull,
            FilterOp::IsNotNull,
            FilterOp::In,
            FilterOp::NotIn,
            FilterOp::Between,
        ];
        assert(r@ =~= all_ops());
        r
    }

    /// The label an operator is shown with.
    pub fn label(&self) -> (r: &'static str)
        ensures
            r@ == op_label(*self),
    {
        match self {
            FilterOp::Equals => "= equals",
            FilterOp::NotEquals => "≠ not equals",
            FilterOp::GreaterThan => "> greater than",
            FilterOp::LessThan => "< less than",
            FilterOp::GreaterOrEqual => "≥ greater or equal",
            FilterOp::LessOrEqual => "≤ less or equal",
            FilterOp::Like => "~ LIKE pattern",
            FilterOp::NotLike => "!~ NOT LIKE pattern",
            FilterOp::StartsWith => "starts with",
            FilterOp::EndsWith => "ends with",
            FilterOp::Contains => "contains",
            FilterOp::NotContains => "does not contain",
            FilterOp::IsNull => "is null",
            FilterOp::IsNotNull => "is not null",
            FilterOp::In => "IN (a, b, ...)",
            FilterOp::NotIn => "NOT IN (a, b, ...)",
            FilterOp::Between => "BETWEEN a AND b",
        }
    }

    /// Whether the operator compares against a value.
    pub fn needs_value(&self) -> (r: bool)
        ensures
            r == op_needs_value(*self),
    {
        !matches!(self, FilterOp::IsNull | FilterOp::IsNotNull)
    }
}

/// A filter on one column.
#[derive(Debug, Clone)]
pub struct Filter {
    pub column: String,
    pub op: FilterOp,
    pub value: Option<String>,
}

/// The text of an optional string, empty when absent.
pub open spec fn text_or_empty(v: Option<String>) -> Seq<char> {
    match v {
        Some(s) => s@,
        None => Seq::empty(),
    }
}

/// The one-line description of a filter shown on its chip.
pub open spec fn filter_summary(f: Filter) -> Seq<char> {
    match f.op {
        FilterOp::IsNull => f.column@ + " is null"@,
        FilterOp::IsNotNull => f.column@ + " is not null"@,
        _ => f.column@ + " "@ + op_label(f.op) + " "@ + text_or_empty(f.value),
    }
}

impl Filter {
    /// The one-line description of the filter.
    pub fn summary(&self) -> (r: String)
        ensures
            r@ == filter_summary(*self),
    {
        match self.op {
            FilterOp::IsNull => concat2(self.column.as_str(), " is null"),
            FilterOp::IsNotNull => concat2(self.column.as_str(), " is not null"),
            _ => {
                let mut r = concat3(self.column.as_str(), " ", self.op.label());
                r.append(" ");
                match &self.value {
                    Some(v) => r.append(v.as_str()),
                    None => {},
                }
                proof {
                    assert(r@ =~= filter_summary(*self));
                }
                r
            },
        }
    }
}

// ── splitting on a separator ──────────────────────────────────────────────────

/// The pieces of `cs` between occurrences of `sep`, as `str::split` yields them
/// (there is always at least one piece).
pub open spec fn split_on(cs: Seq<char>, sep: char) -> Seq<Seq<char>>
    decreases cs.len(),
{
    if cs.len() == 0 {
        seq![Seq::empty()]
    } else {
        let prev = split_on(cs.drop_last(), sep);
        if cs.last() == sep {
            prev.push(Seq::empty())
        } else {
            prev.update(prev.len() - 1, prev.last().push(cs.last()))
        }
    }
}

proof fn lemma_split_on_nonempty(cs: Seq<char>, sep: char)
    ensures
        split_on(cs, sep).len() >= 1,
    decreases cs.len(),
{
    if cs.len() > 0 {
        lemma_split_on_nonempty(cs.drop_last(), sep);
    }
}

/// Each piece of a split, trimmed.
pub open spec fn split_trimmed(cs: Seq<char>, sep: char) -> Seq<Seq<char>> {
    split_on(cs, sep).map_values(|p: Seq<char>| trimmed(p))
}

/// Splits `s` on `sep` and trims each piece.
pub fn split_and_trim(s: &str, sep: char) -> (r: Vec<String>)
    ensures
        views(r@) == split_trimmed(s@, sep),
{
    let n = s.unicode_len();
    let mut parts: Vec<String> = Vec::new();
    let mut start: usize = 0;
    let mut i: usize = 0;
    let ghost mut done: Seq<Seq<char>> = Seq::empty();
    proof {
        assert(s@.take(0) =~= Seq::<char>::empty());
        assert(s@.subrange(0, 0) =~= Seq::<char>::empty());
        assert(views(parts@) =~= done.map_values(|p: Seq<char>| trimmed(p)));
    }
    while i < n
        invariant
            start <= i <= n == s@.len(),
            split_on(s@.take(i as int), sep) == done.push(s@.subrange(start as int, i as int)),
            views(parts@) == done.map_values(|p: Seq<char>| trimmed(p)),
        decreases n - i,
    {
        let c = s.get_char(i);
        proof {
            assert(s@.take(i + 1).drop_last() =~= s@.take(i as int));
            assert(s@.take(i + 1).last() == c);
        }
        if c == sep {
            let piece = s.substring_char(start, i);
            let t = to_owned_string(trim(piece));
            let ghost old_parts = parts@;
            parts.push(t);
            proof {
                lemma_views_push(old_parts, t);
                lemma_trim_map_push(done, s@.subrange(start as int, i as int));
                done = done.push(s@.subrange(start as int, i as int));
                assert(s@.subrange(i + 1, i + 1) =~= Seq::<char>::empty());
            }
            start = i + 1;
        } else {
            proof {
                assert(s@.subrange(start as int, i + 1) =~= s@.subrange(start as int, i as int).push(c));
                assert(done.push(s@.subrange(start as int, i as int)).update(done.len() as int, s@.subrange(start as int, i + 1))
                    =~= done.push(s@.subrange(start as int, i + 1)));
            }
        }
        i = i + 1;
    }
    let piece = s.substring_char(start, n);
    let t = to_owned_string(trim(piece));
    let ghost old_parts = parts@;
    parts.push(t);
    proof {
        assert(s@.take(n as int) =~= s@);
        lemma_views_push(old_parts, t);
        lemma_trim_map_push(done, s@.subrange(start as int, n as int));
    }
    parts
}

// ── the WHERE clause ──────────────────────────────────────────────────────────

/// The raw value text of a filter (empty when it has none).
pub open spec fn raw_value(f: Filter) -> Seq<char> {
    text_or_empty(f.value)
}

/// `n` placeholders `?` separated by `, `.
pub open spec fn placeholders(n: nat) -> Seq<char>
    decreases n,
{
    if n == 0 {
        Seq::empty()
    } else if n == 1 {
        "?"@
    } else {
        placeholders((n - 1) as nat) + ", ?"@
    }
}

/// Index of the first `sep` in `cs`, or its length when there is none.
pub open spec fn first_index(cs: Seq<char>, sep: char) -> int
    decreases cs.len(),
{
    if cs.len() == 0 {
        0
    } else if cs[0] == sep {
        0
    } else {
        1 + first_index(cs.drop_first(), sep)
    }
}

/// The text before the first `sep`, or all of `cs`.
pub open spec fn before_first(cs: Seq<char>, sep: char) -> Seq<char> {
    cs.take(first_index(cs, sep))
}

/// The text after the first `sep`, or nothing.
pub open spec fn after_first(cs: Seq<char>, sep: char) -> Seq<char> {
    if first_index(cs, sep) < cs.len() {
        cs.skip(first_index(cs, sep) + 1)
    } else {
        Seq::empty()
    }
}

proof fn lemma_first_index(cs: Seq<char>, sep: char, i: int)
    requires
        0 <= i <= cs.len(),
        forall|j: int| 0 <= j < i ==> cs[j] != sep,
        i == cs.len() || cs[i] == sep,
    ensures
        first_index(cs, sep) == i,
    decreases cs.len(),
{
    if cs.len() > 0 && cs[0] != sep {
        lemma_first_index(cs.drop_first(), sep, i - 1);
    }
}

/// Splits at the first `sep`, trimming both sides, as `splitn(2, sep)` with trimming does.
fn split_pair_trimmed(s: &str, sep: char) -> (r: (String, String))
    ensures
        r.0@ == trimmed(before_first(s@, sep)),
        r.1@ == trimmed(after_first(s@, sep)),
{
    let n = s.unicode_len();
    let mut i: usize = 0;
    while i < n
        invariant
            i <= n == s@.len(),
            forall|j: int| 0 <= j < i ==> s@[j] != sep,
        ensures
            i <= n,
            forall|j: int| 0 <= j < i ==> s@[j] != sep,
            i == n || s@[i as int] == sep,
        decreases n - i,
    {
        if s.get_char(i) == sep {
            break;
        }
        i = i + 1;
    }
    proof {
        lemma_first_index(s@, sep, i as int);
    }
    let a = to_owned_string(trim(s.substring_char(0, i)));
    if i < n {
        let b = to_owned_string(trim(s.substring_char(i + 1, n)));
        proof {
            assert(s@.subrange(i + 1, n as int) =~= s@.skip(i + 1));
        }
        (a, b)
    } else {
        proof {
            assert(trimmed(Seq::<char>::empty()) =~= Seq::<char>::empty());
        }
        (a, String::new())
    }
}

/// The SQL condition a filter contributes, with `?` placeholders.
pub open spec fn condition_sql(f: Filter, d: Dialect) -> Seq<char> {
    let col = quoted_identifier(d, f.column@);
    match f.op {
        FilterOp::IsNull => col + " IS NULL"@,
        FilterOp::IsNotNull => col + " IS NOT NULL"@,
        FilterOp::Equals => col + " = ?"@,
        FilterOp::NotEquals => col + " != ?"@,
        FilterOp::GreaterThan => col + " > ?"@,
        FilterOp::LessThan => col + " < ?"@,
        FilterOp::GreaterOrEqual => col + " >= ?"@,
        FilterOp::LessOrEqual => col + " <= ?"@,
        FilterOp::Like => col + " LIKE ?"@,
        FilterOp::NotLike => col + " NOT LIKE ?"@,
        FilterOp::StartsWith => col + " LIKE ?"@,
        FilterOp::EndsWith => col + " LIKE ?"@,
        FilterOp::Contains => col + " LIKE ?"@,
        FilterOp::NotContains => col + " NOT LIKE ?"@,
        FilterOp::In => col + " IN ("@ + placeholders(split_on(raw_value(f), ',').len()) + ")"@,
        FilterOp::NotIn => col + " NOT IN ("@ + placeholders(split_on(raw_value(f), ',').len()) + ")"@,
        FilterOp::Between => col + " BETWEEN ? AND ?"@,
    }
}

/// The texts of the parameters a filter binds, in order.
pub open spec fn condition_params(f: Filter) -> Seq<Seq<char>> {
    let raw = raw_value(f);
    match f.op {
        FilterOp::IsNull => Seq::empty(),
        FilterOp::IsNotNull => Seq::empty(),
        FilterOp::StartsWith => seq![raw + "%"@],
        FilterOp::EndsWith => seq!["%"@ + raw],
        FilterOp::Contains => seq!["%"@ + raw + "%"@],
        FilterOp::NotContains => seq!["%"@ + raw + "%"@],
        FilterOp::In => split_trimmed(raw, ','),
        FilterOp::NotIn => split_trimmed(raw, ','),
        FilterOp::Between => seq![trimmed(before_first(raw, ',')), trimmed(after_first(raw, ','))],
        _ => seq![raw],
    }
}

/// The conditions of a list of filters.
pub open spec fn conditions_sql(fs: Seq<Filter>, d: Dialect) -> Seq<Seq<char>> {
    fs.map_values(|f: Filter| condition_sql(f, d))
}

/// The parameter texts of a list of filters, one filter after another.
pub open spec fn filters_params(fs: Seq<Filter>) -> Seq<Seq<char>>
    decreases fs.len(),
{
    if fs.len() == 0 {
        Seq::empty()
    } else {
        filters_params(fs.drop_last()) + condition_params(fs.last())
    }
}

/// The WHERE clause of a list of filters: empty without filters, else `WHERE`
/// and the conditions joined by `AND`.
pub open spec fn where_clause(fs: Seq<Filter>, d: Dialect) -> Seq<char> {
    if fs.len() == 0 {
        Seq::empty()
    } else {
        "WHERE "@ + joined(conditions_sql(fs, d), " AND "@)
    }
}

/// Every value is a string, with the given texts in order.
pub open spec fn string_values(vs: Seq<Value>, texts: Seq<Seq<char>>) -> bool {
    vs.len() == texts.len() && forall|i: int| 0 <= i < vs.len() ==> (#[trigger] vs[i] matches Value::String(s) && s@ == texts[i])
}

/// `n` placeholders as a string.
fn placeholder_list(n: usize) -> (r: String)
    ensures
        r@ == placeholders(n as nat),
{
    let mut r = String::new();
    let mut i: usize = 0;
    while i < n
        invariant
            i <= n,
            r@ == placeholders(i as nat),
        decreases n - i,
    {
        if i == 0 {
            r.append("?");
            proof {
                assert(r@ =~= placeholders(1));
            }
        } else {
            r.append(", ?");
        }
        i = i + 1;
    }
    r
}

/// Pushes string values with the given texts.
fn push_strings(params: &mut Vec<Value>, texts: Vec<String>)
    ensures
        final(params)@.len() == old(params)@.len() + texts@.len(),
        final(params)@.subrange(0, old(params)@.len() as int) == old(params)@,
        string_values(final(params)@.subrange(old(params)@.len() as int, final(params)@.len() as int), views(texts@)),
{
    let ghost start = params@.len();
    let mut texts = texts;
    let n = texts.len();
    let mut i: usize = 0;
    let ghost orig = texts@;
    while i < n
        invariant
            i <= n == orig.len(),
            params@.len() == start + i,
            params@.subrange(0, start as int) == old(params)@,
            start == old(params)@.len(),
            texts@.len() == n,
            forall|k: int| i <= k < n ==> texts@[k] == orig[k],
            string_values(params@.subrange(start as int, params@.len() as int), views(orig).take(i as int)),
        decreases n - i,
    {
        let t = texts[i].clone();
        let ghost prev = params@;
        params.push(Value::String(t));
        proof {
            assert(params@.subrange(0, start as int) =~= old(params)@);
            assert(views(orig).take(i + 1) =~= views(orig).take(i as int).push(orig[i as int]@));
            let tail = params@.subrange(start as int, params@.len() as int);
            let prev_tail = prev.subrange(start as int, prev.len() as int);
            assert forall|k: int| 0 <= k < tail.len() implies (#[trigger] tail[k] matches Value::String(s) && s@ == views(orig).take(i + 1)[k]) by {
                if k < i {
                    assert(tail[k] == prev_tail[k]);
                }
            }
        }
        i = i + 1;
    }
    proof {
        assert(views(orig).take(n as int) =~= views(orig));
    }
}

/// The condition text and parameter texts of one filter.
fn filter_condition(f: &Filter, d: Dialect) -> (r: (String, Vec<String>))
    ensures
        r.0@ == condition_sql(*f, d),
        views(r.1@) == condition_params(*f),
{
    let col = d.quote_identifier(f.column.as_str());
    let raw: String = match &f.value {
        Some(v) => v.clone(),
        None => String::new(),
    };
    assert(raw@ == raw_value(*f));
    let mut ps: Vec<String> = Vec::new();
    let c = match f.op {
        FilterOp::IsNull => concat2(col.as_str(), " IS NULL"),
        FilterOp::IsNotNull => concat2(col.as_str(), " IS NOT NULL"),
        FilterOp::Equals => { ps.push(raw); concat2(col.as_str(), " = ?") },
        FilterOp::NotEquals => { ps.push(raw); concat2(col.as_str(), " != ?") },
        FilterOp::GreaterThan => { ps.push(raw); concat2(col.as_str(), " > ?") },
        FilterOp::LessThan => { ps.push(raw); concat2(col.as_str(), " < ?") },
        FilterOp::GreaterOrEqual => { ps.push(raw); concat2(col.as_str(), " >= ?") },
        FilterOp::LessOrEqual => { ps.push(raw); concat2(col.as_str(), " <= ?") },
        FilterOp::Like => { ps.push(raw); concat2(col.as_str(), " LIKE ?") },
        FilterOp::NotLike => { ps.push(raw); concat2(col.as_str(), " NOT LIKE ?") },
        FilterOp::StartsWith => {
            ps.push(concat2(raw.as_str(), "%"));
            concat2(col.as_str(), " LIKE ?")
        },
        FilterOp::EndsWith => {
            ps.push(concat2("%", raw.as_str()));
            concat2(col.as_str(), " LIKE ?")
        },
        FilterOp::Contains => {
            ps.push(concat3("%", raw.as_str(), "%"));
            concat2(col.as_str(), " LIKE ?")
        },
        FilterOp::NotContains => {
            ps.push(concat3("%", raw.as_str(), "%"));
            concat2(col.as_str(), " NOT LIKE ?")
        },
        FilterOp::In | FilterOp::NotIn => {
            ps = split_and_trim(raw.as_str(), ',');
            proof {
                assert(views(ps@).len() == ps@.len());
            }
            let marks = placeholder_list(ps.len());
            let kw = if f.op == FilterOp::In { " IN (" } else { " NOT IN (" };
            let mut c = concat3(col.as_str(), kw, marks.as_str());
            c.append(")");
            c
        },
        FilterOp::Between => {
            let (a, b) = split_pair_trimmed(raw.as_str(), ',');
            ps.push(a);
            ps.push(b);
            concat2(col.as_str(), " BETWEEN ? AND ?")
        },
    };
    proof {
        assert(views(ps@) =~= condition_params(*f));
        assert(c@ =~= condition_sql(*f, d));
    }
    (c, ps)
}

/// Builds a WHERE clause and parameter list from filters: `WHERE` and the
/// conditions joined by `AND`, with `?` placeholders (MySQL-compatible), and the
/// string parameters in order. No filters give an empty clause and no parameters.
pub fn filters_to_sql(filters: &[Filter], dialect: Dialect) -> (r: (String, Vec<Value>))
    ensures
        r.0@ == where_clause(filters@, dialect),
        string_values(r.1@, filters_params(filters@)),
{
    let n = filters.len();
    if n == 0 {
        proof {
            assert(filters_params(filters@) =~= Seq::<Seq<char>>::empty());
        }
        return (String::new(), Vec::new());
    }
    let mut conditions: Vec<String> = Vec::new();
    let mut params: Vec<Value> = Vec::new();
    let mut i: usize = 0;
    while i < n
        invariant
            i <= n == filters@.len(),
            views(conditions@) == conditions_sql(filters@.take(i as int), dialect),
            string_values(params@, filters_params(filters@.take(i as int))),
        decreases n - i,
    {
        let (c, ps) = filter_condition(&filters[i], dialect);
        let ghost old_conditions = conditions@;
        let ghost old_params = params@;
        conditions.push(c);
        push_strings(&mut params, ps);
        proof {
            lemma_views_push(old_conditions, c);
            assert(filters@.take(i + 1).drop_last() =~= filters@.take(i as int));
            assert(conditions_sql(filters@.take(i + 1), dialect) =~= conditions_sql(filters@.take(i as int), dialect).push(condition_sql(filters@[i as int], dialect)));
            let fp = filters_params(filters@.take(i + 1));
            assert(fp == filters_params(filters@.take(i as int)) + condition_params(filters@[i as int]));
            assert(params@ =~= old_params + params@.subrange(old_params.len() as int, params@.len() as int));
            assert forall|k: int| 0 <= k < params@.len() implies (#[trigger] params@[k] matches Value::String(s) && s@ == fp[k]) by {
                if k < old_params.len() {
                    assert(params@[k] == old_params[k]);
                } else {
                    let tail = params@.subrange(old_params.len() as int, params@.len() as int);
                    assert(params@[k] == tail[k - old_params.len()]);
                }
            }
        }
        i = i + 1;
    }
    proof {
        assert(filters@.take(n as int) =~= filters@);
    }
    let joined_conditions = join(&conditions, " AND ");
    (concat2("WHERE ", joined_conditions.as_str()), params)
}

} // verus!
