//! Pretty-printing of SQL: statements parsed by sqlparser are laid out one
//! clause per line, with the items of a clause indented below it.

use vstd::prelude::*;
use vstd::string::StrSliceExecFns;
use sqlparser::ast;
use sqlparser::ast::{
    BinaryOperator, Expr, GroupByExpr, JoinConstraint, JoinOperator, SetExpr, Statement,
    TableFactor,
};
use sqlparser::dialect::GenericDialect;
use sqlparser::parser::Parser;
use crate::query::filter::split_on;
use crate::strings::{concat2, join, joined, lemma_views_push, to_owned_string, trim, trimmed, views};

verus! {

// ── indenting ─────────────────────────────────────────────────────────────────

/// A line without the carriage return that ended it.
pub open spec fn strip_cr(p: Seq<char>) -> Seq<char> {
    if p.len() > 0 && p.last() == '\r' { p.drop_last() } else { p }
}

/// The lines of a text as `str::lines` yields them: split at `\n`, a `\r`
/// before a `\n` dropped, and no empty line after a final `\n`.
pub open spec fn text_lines(cs: Seq<char>) -> Seq<Seq<char>> {
    let pieces = split_on(cs, '\n');
    let done = pieces.drop_last().map_values(|p: Seq<char>| strip_cr(p));
    if pieces.last().len() == 0 { done } else { done.push(pieces.last()) }
}

/// A line with `pad` in front, unless it is empty.
pub open spec fn indent_line(l: Seq<char>, pad: Seq<char>) -> Seq<char> {
    if l.len() == 0 { l } else { pad + l }
}

/// A text with every non-empty line indented by `pad`, lines joined by `\n`.
pub open spec fn indented(cs: Seq<char>, pad: Seq<char>) -> Seq<char> {
    joined(text_lines(cs).map_values(|l: Seq<char>| indent_line(l, pad)), "\n"@)
}

/// Four spaces, the indent of the formatter.
pub open spec fn pad4() -> Seq<char> {
    "    "@
}

/// The lines of a text.
fn lines_of(s: &str) -> (r: Vec<String>)
    ensures
        views(r@) == text_lines(s@),
{
    let n = s.unicode_len();
    let mut parts: Vec<String> = Vec::new();
    let mut start: usize = 0;
    let mut i: usize = 0;
    let ghost mut done: Seq<Seq<char>> = Seq::empty();
    proof {
        assert(s@.take(0) =~= Seq::<char>::empty());
        assert(s@.subrange(0, 0) =~= Seq::<char>::empty());
        assert(views(parts@) =~= done.map_values(|p: Seq<char>| strip_cr(p)));
    }
    while i < n
        invariant
            start <= i <= n == s@.len(),
            split_on(s@.take(i as int), '\n') == done.push(s@.subrange(start as int, i as int)),
            views(parts@) == done.map_values(|p: Seq<char>| strip_cr(p)),
        decreases n - i,
    {
        let c = s.get_char(i);
        proof {
            assert(s@.take(i + 1).drop_last() =~= s@.take(i as int));
            assert(s@.take(i + 1).last() == c);
        }
        if c == '\n' {
            let end = if i > start && s.get_char(i - 1) == '\r' { i - 1 } else { i };
            let piece = to_owned_string(s.substring_char(start, end));
            let ghost p = s@.subrange(start as int, i as int);
            proof {
                assert(piece@ == strip_cr(p)) by {
                    if end < i {
                        assert(s@.subrange(start as int, end as int) =~= p.drop_last());
                    }
                }
            }
            let ghost old_parts = parts@;
            parts.push(piece);
            proof {
                lemma_views_push(old_parts, piece);
                assert(done.push(p).map_values(|q: Seq<char>| strip_cr(q))
                    =~= done.map_values(|q: Seq<char>| strip_cr(q)).push(strip_cr(p)));
                done = done.push(p);
                assert(s@.subrange(i + 1, i + 1) =~= Seq::<char>::empty());
            }
            start = i + 1;
        } else {
            proof {
                assert(s@.subrange(start as int, i + 1) =~= s@.subrange(start as int, i as int).push(c));
                assert(done.push(s@.subrange(start as int, i as int)).update(done.len() as int, s@.subrange(start as int, i + 1))
                    =~= done.push(s@.subrange(start as int, i + 1)));
            }
        }
        i = i + 1;
    }
    proof {
        assert(s@.take(n as int) =~= s@);
        assert(split_on(s@, '\n').drop_last() =~= done);
    }
    if start < n {
        let piece = to_owned_string(s.substring_char(start, n));
        let ghost old_parts = parts@;
        parts.push(piece);
        proof {
            lemma_views_push(old_parts, piece);
        }
    }
    parts
}

/// Indents every non-empty line of `s` by four spaces.
pub fn add_indent(s: &str) -> (r: String)
    ensures
        r@ == indented(s@, pad4()),
{
    let lines = lines_of(s);
    let mut out: Vec<String> = Vec::new();
    let n = lines.len();
    let mut i: usize = 0;
    let ghost ls = text_lines(s@);
    while i < n
        invariant
            i <= n == lines@.len(),
            ls == views(lines@),
            views(out@) == ls.take(i as int).map_values(|l: Seq<char>| indent_line(l, pad4())),
        decreases n - i,
    {
        let l = &lines[i];
        let t = if l.as_str().unicode_len() == 0 { l.clone() } else { concat2("    ", l.as_str()) };
        proof {
            lemma_views_push(out@, t);
            assert(ls.take(i + 1).map_values(|l: Seq<char>| indent_line(l, pad4()))
                =~= ls.take(i as int).map_values(|l: Seq<char>| indent_line(l, pad4())).push(indent_line(ls[i as int], pad4())));
        }
        out.push(t);
        i = i + 1;
    }
    proof {
        assert(ls.take(n as int) =~= ls);
    }
    join(&out, "\n")
}

// ── conditions ────────────────────────────────────────────────────────────────

/// A WHERE or HAVING condition as far as the formatter looks into it: chains
/// of AND and OR, and any other expression as its SQL text.
pub enum Condition {
    And(Box<Condition>, Box<Condition>),
    Or(Box<Condition>, Box<Condition>),
    Leaf(String),
}

/// A flattened condition: each piece's SQL text and the connector before it
/// (none for the first).
pub open spec fn connect_first(parts: Seq<(Option<Seq<char>>, Seq<char>)>, conn: Seq<char>) -> Seq<(Option<Seq<char>>, Seq<char>)> {
    if parts.len() > 0 && parts[0].0 is None {
        parts.update(0, (Some(conn), parts[0].1))
    } else {
        parts
    }
}

/// The top-level AND/OR chain of a condition as a list of (connector, text):
/// the right operand's first piece takes the operator as its connector.
pub open spec fn flatten(c: Condition) -> Seq<(Option<Seq<char>>, Seq<char>)>
    decreases c,
{
    match c {
        Condition::And(l, r) => flatten(*l) + connect_first(flatten(*r), "AND"@),
        Condition::Or(l, r) => flatten(*l) + connect_first(flatten(*r), "OR"@),
        Condition::Leaf(t) => seq![(None, t@)],
    }
}

/// One line of a clause's condition list: indented, the connector (AND when
/// missing) before every piece but the first.
pub open spec fn condition_line(i: int, p: (Option<Seq<char>>, Seq<char>)) -> Seq<char> {
    if i == 0 {
        pad4() + p.1
    } else {
        pad4() + (match p.0 { Some(k) => k, None => "AND"@ }) + " "@ + p.1
    }
}

/// A WHERE or HAVING clause: the keyword, then one line per piece of the condition.
pub open spec fn where_text(keyword: Seq<char>, c: Condition) -> Seq<char> {
    let parts = flatten(c);
    keyword + "\n"@ + joined(Seq::new(parts.len(), |i: int| condition_line(i, parts[i])), "\n"@)
}

/// A flattened condition with the connectors and texts as strings.
fn flatten_condition(c: &Condition) -> (r: Vec<(Option<String>, String)>)
    ensures
        r@.map_values(|p: (Option<String>, String)| (match p.0 { Some(k) => Some(k@), None => None::<Seq<char>> }, p.1@))
            == flatten(*c),
    decreases c,
{
    match c {
        Condition::And(l, r) | Condition::Or(l, r) => {
            let conn = if matches!(c, Condition::And(..)) { "AND" } else { "OR" };
            let mut parts = flatten_condition(l);
            let mut right = flatten_condition(r);
            let ghost rv = flatten(**r);
            if right.len() > 0 && right[0].0.is_none() {
                let t = right[0].1.clone();
                right.set(0, (Some(to_owned_string(conn)), t));
            }
            proof {
                assert(right@.map_values(|p: (Option<String>, String)| (match p.0 { Some(k) => Some(k@), None => None::<Seq<char>> }, p.1@))
                    =~= connect_first(rv, conn@));
            }
            let ghost pl = parts@;
            parts.append(&mut right);
            proof {
                assert(parts@.map_values(|p: (Option<String>, String)| (match p.0 { Some(k) => Some(k@), None => None::<Seq<char>> }, p.1@))
                    =~= flatten(*c));
            }
            parts
        },
        Condition::Leaf(t) => {
            let r = vec![(None, t.clone())];
            proof {
                assert(r@.map_values(|p: (Option<String>, String)| (match p.0 { Some(k) => Some(k@), None => None::<Seq<char>> }, p.1@))
                    =~= seq![(None::<Seq<char>>, t@)]);
            }
            r
        },
    }
}

/// Formats a WHERE or HAVING clause.
pub fn format_where(keyword: &str, c: &Condition) -> (r: String)
    ensures
        r@ == where_text(keyword@, *c),
{
    let parts = flatten_condition(c);
    let ghost pv = flatten(*c);
    let ghost lines = Seq::new(pv.len(), |i: int| condition_line(i, pv[i]));
    let mut out: Vec<String> = Vec::new();
    let n = parts.len();
    let mut i: usize = 0;
    proof {
        assert(pv.len() == n);
    }
    while i < n
        invariant
            i <= n == parts@.len() == pv.len(),
            pv == parts@.map_values(|p: (Option<String>, String)| (match p.0 { Some(k) => Some(k@), None => None::<Seq<char>> }, p.1@)),
            lines == Seq::new(pv.len(), |i: int| condition_line(i, pv[i])),
            views(out@) == lines.take(i as int),
        decreases n - i,
    {
        let line = if i == 0 {
            concat2("    ", parts[i].1.as_str())
        } else {
            let mut l = String::from_str("    ");
            match &parts[i].0 {
                Some(k) => l.append(k.as_str()),
                None => l.append("AND"),
            }
            l.append(" ");
            l.append(parts[i].1.as_str());
            l
        };
        proof {
            assert(pv[i as int] == (match parts@[i as int].0 { Some(k) => Some(k@), None => None::<Seq<char>> }, parts@[i as int].1@));
            assert(line@ =~= condition_line(i as int, pv[i as int]));
            lemma_views_push(out@, line);
            assert(lines.take(i + 1) =~= lines.take(i as int).push(lines[i as int]));
        }
        out.push(line);
        i = i + 1;
    }
    proof {
        assert(lines.take(n as int) =~= lines);
    }
    let body = join(&out, "\n");
    let mut r = concat2(keyword, "\n");
    r.append(body.as_str());
    r
}


// ── the parsed statement, as far as the formatter reads it ────────────────────

/// A parsed statement: a query, or any other statement as its SQL text.
pub enum ParsedStatement {
    Query(ParsedQuery),
    Other(String),
}

/// A query: its WITH clause, its body, its ORDER BY items (none when absent),
/// and the texts of its LIMIT and OFFSET.
pub struct ParsedQuery {
    pub with: Option<ParsedWith>,
    pub body: ParsedBody,
    pub order_by: Vec<OrderItem>,
    pub limit: Option<String>,
    pub offset: Option<String>,
}

/// A WITH clause.
pub struct ParsedWith {
    pub recursive: bool,
    pub ctes: Vec<ParsedCte>,
}

/// One common table expression: its name and its query.
pub struct ParsedCte {
    pub alias: String,
    pub query: ParsedQuery,
}

/// A query body: a SELECT, or anything else (set operations, VALUES, ...) as text.
pub enum ParsedBody {
    Select(ParsedSelect),
    Other(String),
}

/// An ORDER BY item: the expression's text and its direction if written.
pub struct OrderItem {
    pub expr: String,
    pub asc: Option<bool>,
}

/// A SELECT: DISTINCT or not, the projection, the FROM items, the WHERE
/// condition, the GROUP BY expressions' texts and the HAVING condition.
pub struct ParsedSelect {
    pub distinct: bool,
    pub projection: Vec<ProjectionItem>,
    pub from: Vec<ParsedFrom>,
    pub selection: Option<Condition>,
    pub group_by: Vec<String>,
    pub having: Option<Condition>,
}

/// A projection item.
pub enum ProjectionItem {
    Expr(String),
    Aliased { expr: String, alias: String },
    QualifiedWildcard(String),
    Wildcard,
}

/// A FROM item: a table and the tables joined to it.
pub struct ParsedFrom {
    pub relation: ParsedTable,
    pub joins: Vec<ParsedJoin>,
}

/// A table in FROM or a join: a named table, a subquery, or anything else as text.
pub enum ParsedTable {
    Table { name: String, alias: Option<String> },
    Derived { subquery: Box<ParsedQuery>, alias: Option<String> },
    Other(String),
}

/// The kind of a join.
pub enum JoinKind {
    Inner,
    LeftOuter,
    RightOuter,
    FullOuter,
    Cross,
    Other,
}

/// How a join matches rows.
pub enum JoinOn {
    On(String),
    Using(Vec<String>),
    Natural,
    Nothing,
}

/// A join: its kind, its table and its constraint (`Nothing` for kinds that
/// take none).
pub struct ParsedJoin {
    pub kind: JoinKind,
    pub relation: ParsedTable,
    pub constraint: JoinOn,
}

// ── the layout ────────────────────────────────────────────────────────────────

/// `s` with four spaces in front.
pub open spec fn item_line(s: Seq<char>) -> Seq<char> {
    pad4() + s
}

/// A projection item's text.
pub open spec fn select_item_text(it: ProjectionItem) -> Seq<char> {
    match it {
        ProjectionItem::Expr(e) => e@,
        ProjectionItem::Aliased { expr, alias } => expr@ + " AS "@ + alias@,
        ProjectionItem::QualifiedWildcard(n) => n@ + ".*"@,
        ProjectionItem::Wildcard => "*"@,
    }
}

/// The keyword a join kind is written with.
pub open spec fn join_keyword(k: JoinKind) -> Seq<char> {
    match k {
        JoinKind::Inner => "JOIN"@,
        JoinKind::LeftOuter => "LEFT JOIN"@,
        JoinKind::RightOuter => "RIGHT JOIN"@,
        JoinKind::FullOuter => "FULL JOIN"@,
        JoinKind::Cross => "CROSS JOIN"@,
        JoinKind::Other => "JOIN"@,
    }
}

/// Whether the formatter writes a join kind's constraint (the other kinds are
/// written with the table alone).
pub open spec fn join_shows_constraint(k: JoinKind) -> bool {
    match k {
        JoinKind::Inner | JoinKind::LeftOuter | JoinKind::RightOuter | JoinKind::FullOuter => true,
        _ => false,
    }
}

/// An ORDER BY line: the expression and ` ASC` or ` DESC` when written.
pub open spec fn order_item_text(o: OrderItem) -> Seq<char> {
    pad4() + o.expr@ + (match o.asc { Some(true) => " ASC"@, Some(false) => " DESC"@, None => Seq::empty() })
}

/// The text of a query.
pub open spec fn query_text(q: ParsedQuery) -> Seq<char>
    decreases q, 1int,
{
    joined(query_parts(q), "\n"@)
}

/// The clauses of a query, one text each.
pub open spec fn query_parts(q: ParsedQuery) -> Seq<Seq<char>>
    decreases q, 0int,
{
    let with_part: Seq<Seq<char>> = match q.with {
        Some(w) => seq!["WITH "@ + (if w.recursive { "RECURSIVE "@ } else { Seq::empty() }) + joined(cte_texts(w.ctes@), ",\n"@)],
        None => Seq::empty(),
    };
    let body_part: Seq<char> = match q.body {
        ParsedBody::Select(s) => select_text(s),
        ParsedBody::Other(t) => t@,
    };
    let order_part: Seq<Seq<char>> = if q.order_by@.len() > 0 {
        seq!["ORDER BY\n"@ + joined(q.order_by@.map_values(|o: OrderItem| order_item_text(o)), ",\n"@)]
    } else {
        Seq::empty()
    };
    let limit_part: Seq<Seq<char>> = match q.limit { Some(l) => seq!["LIMIT "@ + l@], None => Seq::empty() };
    let offset_part: Seq<Seq<char>> = match q.offset { Some(o) => seq!["OFFSET "@ + o@], None => Seq::empty() };
    with_part + seq![body_part] + order_part + limit_part + offset_part
}

/// The texts of common table expressions: `name AS (`, the query indented, `)`.
pub open spec fn cte_texts(ctes: Seq<ParsedCte>) -> Seq<Seq<char>>
    decreases ctes, 0int,
{
    if ctes.len() == 0 {
        Seq::empty()
    } else {
        let c = ctes.last();
        cte_texts(ctes.drop_last()).push(c.alias@ + " AS (\n"@ + indented(query_text(c.query), pad4()) + "\n)"@)
    }
}

/// The text of a SELECT.
pub open spec fn select_text(s: ParsedSelect) -> Seq<char>
    decreases s, 0int,
{
    let head = (if s.distinct { "SELECT DISTINCT"@ } else { "SELECT"@ }) + "\n"@
        + joined(s.projection@.map_values(|it: ProjectionItem| item_line(select_item_text(it))), ",\n"@);
    joined(seq![head] + from_texts(s.from@) + select_tail(s), "\n"@)
}

/// The clauses of a SELECT after FROM: WHERE, GROUP BY and HAVING, each when present.
pub open spec fn select_tail(s: ParsedSelect) -> Seq<Seq<char>> {
    let where_part: Seq<Seq<char>> = match s.selection { Some(c) => seq![where_text("WHERE"@, c)], None => Seq::empty() };
    let group_part: Seq<Seq<char>> = if s.group_by@.len() > 0 {
        seq!["GROUP BY\n"@ + joined(s.group_by@.map_values(|e: String| item_line(e@)), ",\n"@)]
    } else {
        Seq::empty()
    };
    let having_part: Seq<Seq<char>> = match s.having { Some(c) => seq![where_text("HAVING"@, c)], None => Seq::empty() };
    where_part + group_part + having_part
}

/// The FROM lines: `FROM ` and the item, one per FROM item.
pub open spec fn from_texts(fs: Seq<ParsedFrom>) -> Seq<Seq<char>>
    decreases fs, 0int,
{
    if fs.len() == 0 {
        Seq::empty()
    } else {
        let f = fs.last();
        from_texts(fs.drop_last()).push("FROM "@ + joined(seq![table_text(f.relation)] + join_texts(f.joins@), "\n"@))
    }
}

/// The text of a table: a name with its alias, or a subquery in brackets with
/// its body indented, or the table's SQL text.
pub open spec fn table_text(t: ParsedTable) -> Seq<char>
    decreases t, 0int,
{
    match t {
        ParsedTable::Table { name, alias } => match alias {
            Some(a) => name@ + " AS "@ + a@,
            None => name@,
        },
        ParsedTable::Derived { subquery, alias } => {
            let inner = "(\n"@ + indented(query_text(*subquery), pad4()) + "\n)"@;
            match alias {
                Some(a) => inner + " AS "@ + a@,
                None => inner,
            }
        },
        ParsedTable::Other(x) => x@,
    }
}

/// The lines of joins.
pub open spec fn join_texts(js: Seq<ParsedJoin>) -> Seq<Seq<char>>
    decreases js, 0int,
{
    if js.len() == 0 {
        Seq::empty()
    } else {
        let j = js.last();
        let head = join_keyword(j.kind) + " "@ + table_text(j.relation);
        let line = if join_shows_constraint(j.kind) {
            match j.constraint {
                JoinOn::On(e) => head + "\n    ON "@ + e@,
                JoinOn::Using(cols) => head + " USING ("@ + joined(views(cols@), ", "@) + ")"@,
                _ => head,
            }
        } else {
            head
        };
        join_texts(js.drop_last()).push(line)
    }
}

// ── writing the layout ────────────────────────────────────────────────────────

/// A projection item's text.
pub fn format_select_item(it: &ProjectionItem) -> (r: String)
    ensures
        r@ == select_item_text(*it),
{
    match it {
        ProjectionItem::Expr(e) => e.clone(),
        ProjectionItem::Aliased { expr, alias } => {
            let mut r = concat2(expr.as_str(), " AS ");
            r.append(alias.as_str());
            r
        },
        ProjectionItem::QualifiedWildcard(n) => concat2(n.as_str(), ".*"),
        ProjectionItem::Wildcard => String::from_str("*"),
    }
}

/// Joins texts built one by one: `lines` are the texts of a prefix of `all`.
proof fn lemma_push_view(lines: Seq<String>, t: String, all: Seq<Seq<char>>, i: int)
    requires
        0 <= i < all.len(),
        views(lines) == all.take(i),
        t@ == all[i],
    ensures
        views(lines.push(t)) == all.take(i + 1),
{
    lemma_views_push(lines, t);
    assert(all.take(i + 1) =~= all.take(i).push(all[i]));
}

/// Formats a query: one clause per line.
pub fn format_query(q: &ParsedQuery) -> (r: String)
    ensures
        r@ == query_text(*q),
    decreases q, 1int,
{
    let parts = format_query_parts(q);
    join(&parts, "\n")
}

fn format_query_parts(q: &ParsedQuery) -> (r: Vec<String>)
    ensures
        views(r@) == query_parts(*q),
    decreases q, 0int,
{
    let mut parts: Vec<String> = Vec::new();
    let ghost mut expect: Seq<Seq<char>> = Seq::empty();
    match &q.with {
        Some(w) => {
            let ctes = format_ctes(&w.ctes);
            let body = join(&ctes, ",\n");
            let mut t = String::from_str("WITH ");
            if w.recursive {
                t.append("RECURSIVE ");
            }
            t.append(body.as_str());
            proof {
                lemma_views_push(parts@, t);
                expect = seq!["WITH "@ + (if w.recursive { "RECURSIVE "@ } else { Seq::empty() }) + joined(cte_texts(w.ctes@), ",\n"@)];
                assert(t@ =~= expect[0]);
                assert(views(parts@.push(t)) =~= expect);
            }
            parts.push(t);
        },
        None => {},
    }
    let body = match &q.body {
        ParsedBody::Select(s) => format_select(s),
        ParsedBody::Other(t) => t.clone(),
    };
    proof {
        lemma_views_push(parts@, body);
        expect = expect.push(body@);
    }
    parts.push(body);
    if q.order_by.len() > 0 {
        let mut items: Vec<String> = Vec::new();
        let n = q.order_by.len();
        let mut i: usize = 0;
        let ghost all = q.order_by@.map_values(|o: OrderItem| order_item_text(o));
        while i < n
            invariant
                i <= n == q.order_by@.len(),
                all == q.order_by@.map_values(|o: OrderItem| order_item_text(o)),
                views(items@) == all.take(i as int),
            decreases n - i,
        {
            let o = &q.order_by[i];
            let mut t = concat2("    ", o.expr.as_str());
            match o.asc {
                Some(true) => t.append(" ASC"),
                Some(false) => t.append(" DESC"),
                None => {},
            }
            proof {
                assert(t@ =~= all[i as int]);
                lemma_push_view(items@, t, all, i as int);
            }
            items.push(t);
            i = i + 1;
        }
        proof {
            assert(all.take(n as int) =~= all);
        }
        let joined_items = join(&items, ",\n");
        let t = concat2("ORDER BY\n", joined_items.as_str());
        proof {
            lemma_views_push(parts@, t);
            expect = expect.push(t@);
        }
        parts.push(t);
    }
    match &q.limit {
        Some(l) => {
            let t = concat2("LIMIT ", l.as_str());
            proof {
                lemma_views_push(parts@, t);
                expect = expect.push(t@);
            }
            parts.push(t);
        },
        None => {},
    }
    match &q.offset {
        Some(o) => {
            let t = concat2("OFFSET ", o.as_str());
            proof {
                lemma_views_push(parts@, t);
                expect = expect.push(t@);
            }
            parts.push(t);
        },
        None => {},
    }
    proof {
        assert(views(parts@) =~= query_parts(*q));
    }
    parts
}

fn format_ctes(ctes: &Vec<ParsedCte>) -> (r: Vec<String>)
    ensures
        views(r@) == cte_texts(ctes@),
    decreases ctes@, 0int,
{
    let mut out: Vec<String> = Vec::new();
    let n = ctes.len();
    let mut i: usize = 0;
    while i < n
        invariant
            i <= n == ctes@.len(),
            views(out@) == cte_texts(ctes@.take(i as int)),
        decreases n - i,
    {
        let c = &ctes[i];
        proof {
            assert(ctes@.take(i + 1).drop_last() =~= ctes@.take(i as int));
            assert(decreases_to!(ctes@ => ctes@[i as int]));
        }
        let inner = format_query(&c.query);
        let ind = add_indent(inner.as_str());
        let mut t = concat2(c.alias.as_str(), " AS (\n");
        t.append(ind.as_str());
        t.append("\n)");
        proof {
            lemma_views_push(out@, t);
        }
        out.push(t);
        i = i + 1;
    }
    proof {
        assert(ctes@.take(n as int) =~= ctes@);
    }
    out
}

fn format_select(s: &ParsedSelect) -> (r: String)
    ensures
        r@ == select_text(*s),
    decreases s, 0int,
{
    let mut items: Vec<String> = Vec::new();
    let n = s.projection.len();
    let mut i: usize = 0;
    let ghost all = s.projection@.map_values(|it: ProjectionItem| item_line(select_item_text(it)));
    while i < n
        invariant
            i <= n == s.projection@.len(),
            all == s.projection@.map_values(|it: ProjectionItem| item_line(select_item_text(it))),
            views(items@) == all.take(i as int),
        decreases n - i,
    {
        let it = format_select_item(&s.projection[i]);
        let t = concat2("    ", it.as_str());
        proof {
            lemma_push_view(items@, t, all, i as int);
        }
        items.push(t);
        i = i + 1;
    }
    proof {
        assert(all.take(n as int) =~= all);
    }
    let cols = join(&items, ",\n");
    let mut head = String::from_str(if s.distinct { "SELECT DISTINCT" } else { "SELECT" });
    head.append("\n");
    head.append(cols.as_str());
    let mut parts: Vec<String> = Vec::new();
    let ghost mut expect: Seq<Seq<char>> = Seq::empty();
    let ghost head_v = head@;
    proof {
        lemma_views_push(parts@, head);
        expect = seq![head@];
        assert(head@ =~= (if s.distinct { "SELECT DISTINCT"@ } else { "SELECT"@ }) + "\n"@
            + joined(s.projection@.map_values(|it: ProjectionItem| item_line(select_item_text(it))), ",\n"@));
    }
    parts.push(head);
    let froms = format_froms(&s.from);
    let mut k: usize = 0;
    let ghost base = parts@;
    while k < froms.len()
        invariant
            k <= froms@.len(),
            views(base) == expect,
            views(parts@) == expect + views(froms@).take(k as int),
        decreases froms@.len() - k,
    {
        let f = froms[k].clone();
        proof {
            lemma_views_push(parts@, f);
            assert(expect + views(froms@).take(k + 1) =~= (expect + views(froms@).take(k as int)).push(f@));
        }
        parts.push(f);
        k = k + 1;
    }
    proof {
        assert(views(froms@).take(froms@.len() as int) =~= views(froms@));
        expect = expect + from_texts(s.from@);
    }
    match &s.selection {
        Some(c) => {
            let t = format_where("WHERE", c);
            proof {
                lemma_views_push(parts@, t);
                expect = expect.push(t@);
            }
            parts.push(t);
        },
        None => {},
    }
    if s.group_by.len() > 0 {
        let mut gs: Vec<String> = Vec::new();
        let m = s.group_by.len();
        let mut j: usize = 0;
        let ghost allg = s.group_by@.map_values(|e: String| item_line(e@));
        while j < m
            invariant
                j <= m == s.group_by@.len(),
                allg == s.group_by@.map_values(|e: String| item_line(e@)),
                views(gs@) == allg.take(j as int),
            decreases m - j,
        {
            let t = concat2("    ", s.group_by[j].as_str());
            proof {
                lemma_push_view(gs@, t, allg, j as int);
            }
            gs.push(t);
            j = j + 1;
        }
        proof {
            assert(allg.take(m as int) =~= allg);
        }
        let body = join(&gs, ",\n");
        let t = concat2("GROUP BY\n", body.as_str());
        proof {
            lemma_views_push(parts@, t);
            expect = expect.push(t@);
        }
        parts.push(t);
    }
    match &s.having {
        Some(c) => {
            let t = format_where("HAVING", c);
            proof {
                lemma_views_push(parts@, t);
                expect = expect.push(t@);
            }
            parts.push(t);
        },
        None => {},
    }
    proof {
        assert(expect =~= seq![head_v] + from_texts(s.from@) + select_tail(*s));
    }
    join(&parts, "\n")
}

fn format_froms(fs: &Vec<ParsedFrom>) -> (r: Vec<String>)
    ensures
        views(r@) == from_texts(fs@),
    decreases fs@, 0int,
{
    let mut out: Vec<String> = Vec::new();
    let n = fs.len();
    let mut i: usize = 0;
    while i < n
        invariant
            i <= n == fs@.len(),
            views(out@) == from_texts(fs@.take(i as int)),
        decreases n - i,
    {
        let f = &fs[i];
        proof {
            assert(fs@.take(i + 1).drop_last() =~= fs@.take(i as int));
            assert(decreases_to!(fs@ => fs@[i as int]));
        }
        let table = format_table(&f.relation);
        let joins = format_joins(&f.joins);
        let mut lines: Vec<String> = Vec::new();
        proof {
            lemma_views_push(lines@, table);
        }
        lines.push(table);
        let mut k: usize = 0;
        while k < joins.len()
            invariant
                k <= joins@.len(),
                views(lines@) == seq![table@] + views(joins@).take(k as int),
            decreases joins@.len() - k,
        {
            let j = joins[k].clone();
            proof {
                lemma_views_push(lines@, j);
                assert(seq![table@] + views(joins@).take(k + 1) =~= (seq![table@] + views(joins@).take(k as int)).push(j@));
            }
            lines.push(j);
            k = k + 1;
        }
        proof {
            assert(views(joins@).take(joins@.len() as int) =~= views(joins@));
        }
        let body = join(&lines, "\n");
        let t = concat2("FROM ", body.as_str());
        proof {
            lemma_views_push(out@, t);
        }
        out.push(t);
        i = i + 1;
    }
    proof {
        assert(fs@.take(n as int) =~= fs@);
    }
    out
}

fn format_table(t: &ParsedTable) -> (r: String)
    ensures
        r@ == table_text(*t),
    decreases t, 0int,
{
    match t {
        ParsedTable::Table { name, alias } => match alias {
            Some(a) => {
                let mut r = concat2(name.as_str(), " AS ");
                r.append(a.as_str());
                r
            },
            None => name.clone(),
        },
        ParsedTable::Derived { subquery, alias } => {
            let inner = format_query(subquery);
            let ind = add_indent(inner.as_str());
            let mut r = concat2("(\n", ind.as_str());
            r.append("\n)");
            match alias {
                Some(a) => {
                    r.append(" AS ");
                    r.append(a.as_str());
                },
                None => {},
            }
            r
        },
        ParsedTable::Other(x) => x.clone(),
    }
}

fn format_joins(js: &Vec<ParsedJoin>) -> (r: Vec<String>)
    ensures
        views(r@) == join_texts(js@),
    decreases js@, 0int,
{
    let mut out: Vec<String> = Vec::new();
    let n = js.len();
    let mut i: usize = 0;
    while i < n
        invariant
            i <= n == js@.len(),
            views(out@) == join_texts(js@.take(i as int)),
        decreases n - i,
    {
        let j = &js[i];
        proof {
            assert(js@.take(i + 1).drop_last() =~= js@.take(i as int));
            assert(decreases_to!(js@ => js@[i as int]));
        }
        let table = format_table(&j.relation);
        let keyword = match j.kind {
            JoinKind::Inner => "JOIN",
            JoinKind::LeftOuter => "LEFT JOIN",
            JoinKind::RightOuter => "RIGHT JOIN",
            JoinKind::FullOuter => "FULL JOIN",
            JoinKind::Cross => "CROSS JOIN",
            JoinKind::Other => "JOIN",
        };
        let mut line = concat2(keyword, " ");
        line.append(table.as_str());
        let shows = match j.kind {
            JoinKind::Inner | JoinKind::LeftOuter | JoinKind::RightOuter | JoinKind::FullOuter => true,
            _ => false,
        };
        if shows {
            match &j.constraint {
                JoinOn::On(e) => {
                    line.append("\n    ON ");
                    line.append(e.as_str());
                },
                JoinOn::Using(cols) => {
                    let c = join(cols, ", ");
                    line.append(" USING (");
                    line.append(c.as_str());
                    line.append(")");
                },
                _ => {},
            }
        }
        proof {
            lemma_views_push(out@, line);
        }
        out.push(line);
        i = i + 1;
    }
    proof {
        assert(js@.take(n as int) =~= js@);
    }
    out
}

// ── parsing ───────────────────────────────────────────────────────────────────

#[verifier::external_type_specification]
#[verifier::external_body]
pub struct ExStatement(sqlparser::ast::Statement);

#[verifier::external_type_specification]
#[verifier::external_body]
pub struct ExQuery(sqlparser::ast::Query);

#[verifier::external_type_specification]
#[verifier::external_body]
pub struct ExSelect(sqlparser::ast::Select);

#[verifier::external_type_specification]
#[verifier::external_body]
pub struct ExSelectItem(sqlparser::ast::SelectItem);

#[verifier::external_type_specification]
#[verifier::external_body]
pub struct ExExpr(sqlparser::ast::Expr);

#[verifier::external_type_specification]
#[verifier::external_body]
pub struct ExTableWithJoins(sqlparser::ast::TableWithJoins);

#[verifier::external_type_specification]
#[verifier::external_body]
pub struct ExTableFactor(sqlparser::ast::TableFactor);

#[verifier::external_type_specification]
#[verifier::external_body]
pub struct ExJoin(sqlparser::ast::Join);

#[verifier::external_type_specification]
#[verifier::external_body]
pub struct ExJoinConstraint(sqlparser::ast::JoinConstraint);

#[verifier::external_type_specification]
#[verifier::external_body]
pub struct ExWith(sqlparser::ast::With);

/// The statements sqlparser's parser (generic dialect) reads from the text, as
/// the formatter sees them, or the text of the parser's error.
pub uninterp spec fn sql_parse(sql: Seq<char>) -> Result<Seq<ParsedStatement>, Seq<char>>;

/// Calls sqlparser's `Parser::parse_sql` with the generic dialect and converts
/// each statement (see `convert_statement`); a parse error becomes its text.
/// The result is named `sql_parse` of the text; nothing more is stated.
#[verifier::external_body]
fn parse_sql(sql: &str) -> (r: Result<Vec<ParsedStatement>, String>)
    ensures
        r matches Ok(v) ==> (sql_parse(sql@) matches Ok(p) && p == v@),
        r matches Err(e) ==> (sql_parse(sql@) matches Err(m) && m == e@),
{
    match Parser::parse_sql(&GenericDialect {}, sql) {
        Ok(stmts) => Ok(stmts.iter().map(convert_statement).collect()),
        Err(e) => Err(e.to_string()),
    }
}

// The conversions below are used by `parse_sql` only, whose contract covers
// their results: each moves what the formatter reads of a node of sqlparser's
// tree into the library's types, and writes any other node as the SQL text that
// its `Display` gives.

/// A statement: a query, or the statement's SQL text.
#[verifier::external_body]
fn convert_statement(s: &Statement) -> ParsedStatement {
    match s {
        Statement::Query(q) => ParsedStatement::Query(convert_query(q)),
        other => ParsedStatement::Other(other.to_string()),
    }
}

/// A query: its WITH clause, body, ORDER BY items, LIMIT and OFFSET.
#[verifier::external_body]
fn convert_query(q: &ast::Query) -> ParsedQuery {
    ParsedQuery {
        with: q.with.as_ref().map(convert_with),
        body: match q.body.as_ref() {
            SetExpr::Select(s) => ParsedBody::Select(convert_select(s)),
            other => ParsedBody::Other(other.to_string()),
        },
        order_by: q.order_by.as_ref().map(|o| o.exprs.iter().map(|e| OrderItem { expr: e.expr.to_string(), asc: e.asc }).collect()).unwrap_or_default(),
        limit: q.limit.as_ref().map(|l| l.to_string()),
        offset: q.offset.as_ref().map(|o| o.value.to_string()),
    }
}

/// A WITH clause: RECURSIVE or not, and each table expression's name and query.
#[verifier::external_body]
fn convert_with(w: &ast::With) -> ParsedWith {
    ParsedWith {
        recursive: w.recursive,
        ctes: w.cte_tables.iter().map(|c| ParsedCte { alias: c.alias.name.to_string(), query: convert_query(&c.query) }).collect(),
    }
}

/// A SELECT; GROUP BY ALL counts as no GROUP BY.
#[verifier::external_body]
fn convert_select(s: &ast::Select) -> ParsedSelect {
    ParsedSelect {
        distinct: s.distinct.is_some(),
        projection: s.projection.iter().map(convert_select_item).collect(),
        from: s.from.iter().map(convert_from).collect(),
        selection: s.selection.as_ref().map(convert_condition),
        group_by: match &s.group_by {
            GroupByExpr::Expressions(es, _) => es.iter().map(|e| e.to_string()).collect(),
            _ => Vec::new(),
        },
        having: s.having.as_ref().map(convert_condition),
    }
}

/// A projection item.
#[verifier::external_body]
fn convert_select_item(it: &ast::SelectItem) -> ProjectionItem {
    match it {
        ast::SelectItem::UnnamedExpr(e) => ProjectionItem::Expr(e.to_string()),
        ast::SelectItem::ExprWithAlias { expr, alias } => ProjectionItem::Aliased { expr: expr.to_string(), alias: alias.to_string() },
        ast::SelectItem::QualifiedWildcard(n, _) => ProjectionItem::QualifiedWildcard(n.to_string()),
        ast::SelectItem::Wildcard(_) => ProjectionItem::Wildcard,
    }
}

/// A condition: AND and OR chains, any other expression as text.
#[verifier::external_body]
fn convert_condition(e: &Expr) -> Condition {
    match e {
        Expr::BinaryOp { left, op: BinaryOperator::And, right } => Condition::And(Box::new(convert_condition(left)), Box::new(convert_condition(right))),
        Expr::BinaryOp { left, op: BinaryOperator::Or, right } => Condition::Or(Box::new(convert_condition(left)), Box::new(convert_condition(right))),
        other => Condition::Leaf(other.to_string()),
    }
}

/// A FROM item and its joins.
#[verifier::external_body]
fn convert_from(t: &ast::TableWithJoins) -> ParsedFrom {
    ParsedFrom { relation: convert_table(&t.relation), joins: t.joins.iter().map(convert_join).collect() }
}

/// A table: a named table or a subquery, each with its alias's name, or the table's text.
#[verifier::external_body]
fn convert_table(t: &TableFactor) -> ParsedTable {
    match t {
        TableFactor::Table { name, alias, .. } => ParsedTable::Table { name: name.to_string(), alias: alias.as_ref().map(|a| a.name.to_string()) },
        TableFactor::Derived { subquery, alias, .. } => ParsedTable::Derived {
            subquery: Box::new(convert_query(subquery)),
            alias: alias.as_ref().map(|a| a.name.to_string()),
        },
        other => ParsedTable::Other(other.to_string()),
    }
}

/// A join: inner, left, right and full joins with their constraint, a cross
/// join, or any other kind (whose constraint the formatter does not write).
#[verifier::external_body]
fn convert_join(j: &ast::Join) -> ParsedJoin {
    let (kind, c) = match &j.join_operator {
        JoinOperator::Inner(c) => (JoinKind::Inner, Some(c)),
        JoinOperator::LeftOuter(c) => (JoinKind::LeftOuter, Some(c)),
        JoinOperator::RightOuter(c) => (JoinKind::RightOuter, Some(c)),
        JoinOperator::FullOuter(c) => (JoinKind::FullOuter, Some(c)),
        JoinOperator::CrossJoin => (JoinKind::Cross, None),
        _ => (JoinKind::Other, None),
    };
    let constraint = c.map(convert_constraint).unwrap_or(JoinOn::Nothing);
    ParsedJoin { kind, relation: convert_table(&j.relation), constraint }
}

/// A join constraint: ON with the condition's text, USING with the columns' names, NATURAL, or none.
#[verifier::external_body]
fn convert_constraint(c: &JoinConstraint) -> JoinOn {
    match c {
        JoinConstraint::On(e) => JoinOn::On(e.to_string()),
        JoinConstraint::Using(cols) => JoinOn::Using(cols.iter().map(|c| c.to_string()).collect()),
        JoinConstraint::Natural => JoinOn::Natural,
        JoinConstraint::None => JoinOn::Nothing,
    }
}

// ── formatting a script ───────────────────────────────────────────────────────

/// The text of a statement: a query laid out, anything else as it was read.
pub open spec fn statement_text(st: ParsedStatement) -> Seq<char> {
    match st {
        ParsedStatement::Query(q) => query_text(q),
        ParsedStatement::Other(t) => t@,
    }
}

/// The statements laid out one after the other, a blank line between them.
pub open spec fn script_text(stmts: Seq<ParsedStatement>) -> Seq<char> {
    joined(stmts.map_values(|st: ParsedStatement| statement_text(st)), "\n\n"@)
}

/// Lays out parsed statements, a blank line between them.
pub fn format_statements(stmts: &Vec<ParsedStatement>) -> (r: String)
    ensures
        r@ == script_text(stmts@),
{
    let mut out: Vec<String> = Vec::new();
    let n = stmts.len();
    let mut i: usize = 0;
    let ghost all = stmts@.map_values(|st: ParsedStatement| statement_text(st));
    while i < n
        invariant
            i <= n == stmts@.len(),
            all == stmts@.map_values(|st: ParsedStatement| statement_text(st)),
            views(out@) == all.take(i as int),
        decreases n - i,
    {
        let t = match &stmts[i] {
            ParsedStatement::Query(q) => format_query(q),
            ParsedStatement::Other(x) => x.clone(),
        };
        proof {
            lemma_push_view(out@, t, all, i as int);
        }
        out.push(t);
        i = i + 1;
    }
    proof {
        assert(all.take(n as int) =~= all);
    }
    join(&out, "\n\n")
}

/// Formats SQL text: blank text gives empty text; otherwise the text is parsed,
/// and the statements are laid out one clause per line, a blank line between
/// statements, or the parser's error is returned.
pub fn format_sql(sql: &str) -> (r: Result<String, String>)
    ensures
        trimmed(sql@).len() == 0 ==> (r matches Ok(t) && t@.len() == 0),
        trimmed(sql@).len() > 0 ==> match sql_parse(sql@) {
            Ok(stmts) => (r matches Ok(t) && t@ == script_text(stmts)),
            Err(e) => (r matches Err(m) && m@ == e),
        },
{
    if trim(sql).unicode_len() == 0 {
        return Ok(String::new());
    }
    match parse_sql(sql) {
        Ok(stmts) => Ok(format_statements(&stmts)),
        Err(e) => Err(e),
    }
}
} // verus!
