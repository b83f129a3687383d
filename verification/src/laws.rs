//! Properties that relate several operations of the library.

use vstd::prelude::*;
use crate::connection::profile::{form_port, ConnectionProfile};
use crate::connection::{first_with_id, other_id, profiles_after_delete, profiles_after_save};
use crate::db::types::{
    identifier_quote, quoted_identifier, sql_expression_like, text_value, Dialect, Value, ValueView,
};
use crate::export::sql_export::sql_literal_text;
use crate::query::format::{join_keyword, join_texts, table_text, JoinKind, ParsedJoin};
use crate::query::filter::{
    condition_params, condition_sql, conditions_sql, filters_params, placeholders, raw_value,
    split_on, where_clause, Filter, FilterOp,
};
use crate::strings::{
    eq_ignore_ascii_case, trimmed, decimal, digit_char, digits_value, doubled, is_digit, joined, parse_unsigned, unsigned_digits,
};
use crate::ui::tab_bar::{opened_table, shows_table, Tab, TabKind};
use crate::ui::table_view::{
    cells_unique, cols_unique, new_row_after_set, new_row_text, page_target, pending_after_set,
    pending_text,
};

verus! {

// ── decimal text ──────────────────────────────────────────────────────────────

proof fn lemma_decimal_digits(n: nat)
    ensures
        decimal(n).len() > 0,
        decimal(n)[0] != '+',
        forall|i: int| 0 <= i < decimal(n).len() ==> is_digit(#[trigger] decimal(n)[i]),
        digits_value(decimal(n)) == n,
    decreases n,
{
    if n >= 10 {
        lemma_decimal_digits(n / 10);
        let d = decimal(n);
        assert(d.drop_last() =~= decimal(n / 10));
        assert forall|i: int| 0 <= i < d.len() implies is_digit(#[trigger] d[i]) by {
            if i < d.len() - 1 {
                assert(d[i] == decimal(n / 10)[i]);
            }
        }
        assert(digit_char(n % 10) as u32 == 48 + n % 10);
        assert(d.last() == digit_char(n % 10));
        assert((n / 10) * 10 + n % 10 == n) by (nonlinear_arith);
        assert(((d.last() as u32 - 48) as nat) == n % 10);
        assert(digits_value(d) == digits_value(d.drop_last()) * 10 + ((d.last() as u32 - 48) as nat));
        assert(digits_value(d.drop_last()) == n / 10);
    } else {
        let d = decimal(n);
        assert(digit_char(n) as u32 == 48 + n);
        assert(d.drop_last() =~= Seq::<char>::empty());
        assert(((d.last() as u32 - 48) as nat) == n);
        assert(digits_value(d) == digits_value(d.drop_last()) * 10 + ((d.last() as u32 - 48) as nat));
    }
}

/// Reading back the decimal text of a number gives the number: what is shown
/// is what is parsed, for every number within the bound.
pub proof fn law_decimal_reads_back(n: nat, max: nat)
    requires
        n <= max,
    ensures
        parse_unsigned(decimal(n), max) == Some(n),
{
    lemma_decimal_digits(n);
    assert(unsigned_digits(decimal(n)) == decimal(n));
}

/// A profile's port, written into the connection form as text and read back,
/// is the same port.
pub proof fn law_form_port_round_trip(port: u16)
    ensures
        form_port(decimal(port as nat)) == port,
{
    law_decimal_reads_back(port as nat, 65535);
}

// ── saved profiles ────────────────────────────────────────────────────────────

/// When some profile has the id, a first one does.
proof fn lemma_first_with_id(ps: Seq<ConnectionProfile>, id: Seq<char>, i: int)
    requires
        0 <= i < ps.len(),
        ps[i].id@ == id,
    ensures
        first_with_id(ps, id) matches Some(k) && 0 <= k <= i && ps[k].id@ == id
            && forall|j: int| 0 <= j < k ==> (#[trigger] ps[j]).id@ != id,
    decreases i,
{
    if exists|j: int| 0 <= j < i && (#[trigger] ps[j]).id@ == id {
        let j = choose|j: int| 0 <= j < i && (#[trigger] ps[j]).id@ == id;
        lemma_first_with_id(ps, id, j);
    } else {
        assert(0 <= i < ps.len() && ps[i].id@ == id && forall|j: int| 0 <= j < i ==> (#[trigger] ps[j]).id@ != id);
        let k = choose|k: int| 0 <= k < ps.len() && (#[trigger] ps[k]).id@ == id
            && forall|j: int| 0 <= j < k ==> (#[trigger] ps[j]).id@ != id;
        assert(k == i) by {
            if k < i {
                assert(ps[k].id@ != id);
            }
            if k > i {
                assert(ps[i].id@ != id);
            }
        }
    }
}

/// No two profiles share an id.
pub open spec fn ids_unique(ps: Seq<ConnectionProfile>) -> bool {
    forall|i: int, j: int| 0 <= i < j < ps.len() ==> (#[trigger] ps[i]).id@ != (#[trigger] ps[j]).id@
}

/// Saving a profile into a list whose ids are unique keeps them unique, and the
/// saved profile is in the list.
pub proof fn law_save_keeps_ids_unique(ps: Seq<ConnectionProfile>, p: ConnectionProfile)
    requires
        ids_unique(ps),
    ensures
        ids_unique(profiles_after_save(ps, p)),
        profiles_after_save(ps, p).contains(p),
{
    let after = profiles_after_save(ps, p);
    if exists|i: int| 0 <= i < ps.len() && (#[trigger] ps[i]).id@ == p.id@ {
        let i = choose|i: int| 0 <= i < ps.len() && (#[trigger] ps[i]).id@ == p.id@;
        lemma_first_with_id(ps, p.id@, i);
    }
    match first_with_id(ps, p.id@) {
        Some(k) => {
            assert(0 <= k < ps.len() && ps[k].id@ == p.id@);
            assert(after[k] == p);
            assert forall|i: int, j: int| 0 <= i < j < after.len() implies (#[trigger] after[i]).id@ != (#[trigger] after[j]).id@ by {
                if i == k {
                    assert(ps[j].id@ != ps[k].id@);
                } else if j == k {
                    assert(ps[i].id@ != ps[k].id@);
                } else {
                    assert(ps[i].id@ != ps[j].id@);
                }
            }
        },
        None => {
            assert(!exists|i: int| 0 <= i < ps.len() && (#[trigger] ps[i]).id@ == p.id@);
            assert(after[ps.len() as int] == p);
            assert forall|i: int, j: int| 0 <= i < j < after.len() implies (#[trigger] after[i]).id@ != (#[trigger] after[j]).id@ by {
                if j == ps.len() {
                    assert(ps[i].id@ != p.id@);
                } else {
                    assert(ps[i].id@ != ps[j].id@);
                }
            }
        },
    }
}

proof fn lemma_delete_push(ps: Seq<ConnectionProfile>, p: ConnectionProfile, id: Seq<char>)
    ensures
        profiles_after_delete(ps.push(p), id) == (if p.id@ != id { profiles_after_delete(ps, id).push(p) } else { profiles_after_delete(ps, id) }),
{
    reveal_with_fuel(Seq::filter, 1);
    assert(ps.push(p).drop_last() =~= ps);
}

proof fn lemma_delete_update(ps: Seq<ConnectionProfile>, k: int, p: ConnectionProfile)
    requires
        0 <= k < ps.len(),
        ps[k].id@ == p.id@,
    ensures
        profiles_after_delete(ps.update(k, p), p.id@) == profiles_after_delete(ps, p.id@),
    decreases ps.len(),
{
    reveal_with_fuel(Seq::filter, 1);
    let u = ps.update(k, p);
    if k == ps.len() - 1 {
        assert(u.drop_last() =~= ps.drop_last());
    } else {
        assert(u.drop_last() =~= ps.drop_last().update(k, p));
        lemma_delete_update(ps.drop_last(), k, p);
    }
}

/// Deleting the id of a profile just saved gives the list with that id
/// deleted, whatever the save replaced or added.
pub proof fn law_delete_after_save(ps: Seq<ConnectionProfile>, p: ConnectionProfile)
    ensures
        profiles_after_delete(profiles_after_save(ps, p), p.id@) == profiles_after_delete(ps, p.id@),
        forall|i: int| 0 <= i < profiles_after_delete(ps, p.id@).len()
            ==> (#[trigger] profiles_after_delete(ps, p.id@)[i]).id@ != p.id@,
{
    if exists|i: int| 0 <= i < ps.len() && (#[trigger] ps[i]).id@ == p.id@ {
        let i = choose|i: int| 0 <= i < ps.len() && (#[trigger] ps[i]).id@ == p.id@;
        lemma_first_with_id(ps, p.id@, i);
    }
    match first_with_id(ps, p.id@) {
        Some(k) => {
            lemma_delete_update(ps, k, p);
        },
        None => {
            lemma_delete_push(ps, p, p.id@);
        },
    }
    let d = profiles_after_delete(ps, p.id@);
    assert forall|i: int| 0 <= i < d.len() implies (#[trigger] d[i]).id@ != p.id@ by {
        ps.filter_lemma(other_id(p.id@));
    }
}

// ── the table view's typed texts ──────────────────────────────────────────────

/// Recording a cell's text keeps one text per cell; the cell then holds the
/// new text, and every other cell keeps its own.
pub proof fn law_pending_read_after_write(
    es: Seq<(usize, usize, Seq<char>)>,
    row: usize,
    col: usize,
    text: Seq<char>,
    r2: usize,
    c2: usize,
)
    requires
        cells_unique(es),
    ensures
        cells_unique(pending_after_set(es, row, col, text)),
        pending_text(pending_after_set(es, row, col, text), row, col) == Some(text),
        !(r2 == row && c2 == col) ==> pending_text(pending_after_set(es, row, col, text), r2, c2) == pending_text(es, r2, c2),
{
    let after = pending_after_set(es, row, col, text);
    if exists|i: int| 0 <= i < es.len() && (#[trigger] es[i]).0 == row && es[i].1 == col {
        let k = choose|i: int| 0 <= i < es.len() && (#[trigger] es[i]).0 == row && es[i].1 == col;
        assert(after == es.update(k, (row, col, text)));
        assert forall|i: int, j: int| 0 <= i < j < after.len() implies !(#[trigger] after[i].0 == #[trigger] after[j].0 && after[i].1 == after[j].1) by {
            if i != k && j != k {
                assert(!(es[i].0 == es[j].0 && es[i].1 == es[j].1));
            } else if i == k {
                assert(!(es[k].0 == es[j].0 && es[k].1 == es[j].1));
            } else {
                assert(!(es[i].0 == es[k].0 && es[i].1 == es[k].1));
            }
        }
        assert(after[k].0 == row && after[k].1 == col);
        let c = choose|i: int| 0 <= i < after.len() && (#[trigger] after[i]).0 == row && after[i].1 == col;
        if c != k {
            if c < k {
                assert(!(after[c].0 == after[k].0 && after[c].1 == after[k].1));
            } else {
                assert(!(after[k].0 == after[c].0 && after[k].1 == after[c].1));
            }
        }
        if !(r2 == row && c2 == col) {
            if exists|i: int| 0 <= i < es.len() && (#[trigger] es[i]).0 == r2 && es[i].1 == c2 {
                let a = choose|i: int| 0 <= i < es.len() && (#[trigger] es[i]).0 == r2 && es[i].1 == c2;
                assert(after[a].0 == r2 && after[a].1 == c2);
                let b = choose|i: int| 0 <= i < after.len() && (#[trigger] after[i]).0 == r2 && after[i].1 == c2;
                if a != b {
                    if a < b {
                        assert(!(after[a].0 == after[b].0 && after[a].1 == after[b].1));
                    } else {
                        assert(!(after[b].0 == after[a].0 && after[b].1 == after[a].1));
                    }
                }
            } else {
                assert(!exists|i: int| 0 <= i < after.len() && (#[trigger] after[i]).0 == r2 && after[i].1 == c2) by {
                    if exists|i: int| 0 <= i < after.len() && (#[trigger] after[i]).0 == r2 && after[i].1 == c2 {
                        let b = choose|i: int| 0 <= i < after.len() && (#[trigger] after[i]).0 == r2 && after[i].1 == c2;
                        assert(es[b].0 == r2 && es[b].1 == c2);
                    }
                }
            }
        }
    } else {
        let k = es.len() as int;
        assert(after == es.push((row, col, text)));
        assert forall|i: int, j: int| 0 <= i < j < after.len() implies !(#[trigger] after[i].0 == #[trigger] after[j].0 && after[i].1 == after[j].1) by {
            if j == k {
                assert(!(es[i].0 == row && es[i].1 == col));
            } else {
                assert(!(es[i].0 == es[j].0 && es[i].1 == es[j].1));
            }
        }
        assert(after[k].0 == row && after[k].1 == col);
        let c = choose|i: int| 0 <= i < after.len() && (#[trigger] after[i]).0 == row && after[i].1 == col;
        if c != k {
            assert(es[c].0 == row && es[c].1 == col);
        }
        if !(r2 == row && c2 == col) {
            if exists|i: int| 0 <= i < es.len() && (#[trigger] es[i]).0 == r2 && es[i].1 == c2 {
                let a = choose|i: int| 0 <= i < es.len() && (#[trigger] es[i]).0 == r2 && es[i].1 == c2;
                assert(after[a].0 == r2 && after[a].1 == c2);
                let b = choose|i: int| 0 <= i < after.len() && (#[trigger] after[i]).0 == r2 && after[i].1 == c2;
                if a != b {
                    if b == k {
                    } else if a < b {
                        assert(!(es[a].0 == es[b].0 && es[a].1 == es[b].1));
                    } else {
                        assert(!(es[b].0 == es[a].0 && es[b].1 == es[a].1));
                    }
                }
            } else {
                assert(!exists|i: int| 0 <= i < after.len() && (#[trigger] after[i]).0 == r2 && after[i].1 == c2) by {
                    if exists|i: int| 0 <= i < after.len() && (#[trigger] after[i]).0 == r2 && after[i].1 == c2 {
                        let b = choose|i: int| 0 <= i < after.len() && (#[trigger] after[i]).0 == r2 && after[i].1 == c2;
                        if b < k {
                            assert(es[b].0 == r2 && es[b].1 == c2);
                        }
                    }
                }
            }
        }
    }
}

/// Recording a new-row column's text keeps one text per column; the column then
/// holds the new text, and every other column keeps its own.
pub proof fn law_new_row_read_after_write(es: Seq<(usize, Seq<char>)>, col: usize, text: Seq<char>, c2: usize)
    requires
        cols_unique(es),
    ensures
        cols_unique(new_row_after_set(es, col, text)),
        new_row_text(new_row_after_set(es, col, text), col) == Some(text),
        c2 != col ==> new_row_text(new_row_after_set(es, col, text), c2) == new_row_text(es, c2),
{
    let after = new_row_after_set(es, col, text);
    let k: int = if exists|i: int| 0 <= i < es.len() && (#[trigger] es[i]).0 == col {
        choose|i: int| 0 <= i < es.len() && (#[trigger] es[i]).0 == col
    } else {
        es.len() as int
    };
    assert(after.len() == es.len() || after.len() == es.len() + 1);
    assert(after[k] == (col, text));
    assert(forall|i: int| 0 <= i < after.len() && i != k ==> #[trigger] after[i] == es[i]);
    assert forall|i: int, j: int| 0 <= i < j < after.len() implies #[trigger] after[i].0 != #[trigger] after[j].0 by {
        if i != k && j != k {
            assert(es[i].0 != es[j].0);
        } else if i == k {
            if j < es.len() {
                assert(es[j].0 != col) by {
                    if k < es.len() {
                        assert(es[k].0 != es[j].0);
                    }
                }
            }
        } else {
            if k < es.len() {
                assert(es[i].0 != es[k].0);
            } else {
                assert(es[i].0 != col);
            }
        }
    }
    let c = choose|i: int| 0 <= i < after.len() && (#[trigger] after[i]).0 == col;
    assert(c == k) by {
        if c != k {
            if c < k {
                assert(after[c].0 != after[k].0);
            } else {
                assert(after[k].0 != after[c].0);
            }
        }
    }
    if c2 != col {
        if exists|i: int| 0 <= i < es.len() && (#[trigger] es[i]).0 == c2 {
            let a = choose|i: int| 0 <= i < es.len() && (#[trigger] es[i]).0 == c2;
            assert(a != k);
            assert(after[a].0 == c2);
            let b = choose|i: int| 0 <= i < after.len() && (#[trigger] after[i]).0 == c2;
            if a != b {
                if a < b {
                    assert(after[a].0 != after[b].0);
                } else {
                    assert(after[b].0 != after[a].0);
                }
            }
        } else {
            assert(!exists|i: int| 0 <= i < after.len() && (#[trigger] after[i]).0 == c2) by {
                if exists|i: int| 0 <= i < after.len() && (#[trigger] after[i]).0 == c2 {
                    let b = choose|i: int| 0 <= i < after.len() && (#[trigger] after[i]).0 == c2;
                    assert(b != k);
                    assert(es[b].0 == c2);
                }
            }
        }
    }
}

/// A page number typed into the page field never leads past the last page, nor
/// before the first.
pub proof fn law_page_jump_in_range(n: nat, last_page: int)
    requires
        last_page >= 0,
    ensures
        0 <= page_target(n, last_page) <= last_page,
        1 <= n <= last_page + 1 ==> page_target(n, last_page) == n - 1,
{
}


// ── the WHERE clause and its parameters ───────────────────────────────────────

/// The number of `?` placeholders in a text.
pub open spec fn qmarks(cs: Seq<char>) -> nat
    decreases cs.len(),
{
    if cs.len() == 0 {
        0
    } else {
        qmarks(cs.drop_last()) + if cs.last() == '?' { 1nat } else { 0nat }
    }
}

proof fn lemma_qmarks_add(a: Seq<char>, b: Seq<char>)
    ensures
        qmarks(a + b) == qmarks(a) + qmarks(b),
    decreases b.len(),
{
    if b.len() > 0 {
        assert((a + b).drop_last() =~= a + b.drop_last());
        lemma_qmarks_add(a, b.drop_last());
    } else {
        assert(a + b =~= a);
    }
}

proof fn lemma_qmarks_doubled(cs: Seq<char>, q: char)
    requires
        q != '?',
    ensures
        qmarks(doubled(cs, q)) == qmarks(cs),
    decreases cs.len(),
{
    if cs.len() > 0 {
        lemma_qmarks_doubled(cs.drop_last(), q);
        let d = doubled(cs.drop_last(), q);
        if cs.last() == q {
            assert(d.push(q).push(q).drop_last() =~= d.push(q));
            assert(d.push(q).drop_last() =~= d);
            assert(qmarks(d.push(q)) == qmarks(d));
            assert(qmarks(d.push(q).push(q)) == qmarks(d.push(q)));
        } else {
            assert(d.push(cs.last()).drop_last() =~= d);
            assert(qmarks(d.push(cs.last())) == qmarks(d) + if cs.last() == '?' { 1nat } else { 0nat });
            assert(cs.drop_last().push(cs.last()) =~= cs);
            assert(qmarks(cs) == qmarks(cs.drop_last()) + if cs.last() == '?' { 1nat } else { 0nat });
        }
    }
}

proof fn lemma_qmarks_push(cs: Seq<char>, c: char)
    ensures
        qmarks(cs.push(c)) == qmarks(cs) + if c == '?' { 1nat } else { 0nat },
{
    assert(cs.push(c).drop_last() =~= cs);
}

proof fn lemma_qmarks_placeholders(n: nat)
    ensures
        qmarks(placeholders(n)) == n,
    decreases n,
{
    reveal_strlit("?");
    reveal_strlit(", ?");
    let e = Seq::<char>::empty();
    if n == 1 {
        assert("?"@ =~= e.push('?'));
        lemma_qmarks_push(e, '?');
    } else if n > 1 {
        lemma_qmarks_placeholders((n - 1) as nat);
        lemma_qmarks_add(placeholders((n - 1) as nat), ", ?"@);
        let t = e.push(',').push(' ').push('?');
        assert(", ?"@ =~= t);
        lemma_qmarks_push(e, ',');
        lemma_qmarks_push(e.push(','), ' ');
        lemma_qmarks_push(e.push(',').push(' '), '?');
    }
}

proof fn lemma_qmarks_literal(cs: Seq<char>, n: nat)
    requires
        n == cs.filter(|c: char| c == '?').len(),
    ensures
        qmarks(cs) == n,
    decreases cs.len(),
{
    reveal_with_fuel(Seq::filter, 1);
    if cs.len() > 0 {
        lemma_qmarks_literal(cs.drop_last(), cs.drop_last().filter(|c: char| c == '?').len());
    }
}

/// The `?` count of a literal piece of SQL.
proof fn lemma_qmarks_text(cs: Seq<char>)
    ensures
        qmarks(cs) == cs.filter(|c: char| c == '?').len(),
{
    lemma_qmarks_literal(cs, cs.filter(|c: char| c == '?').len());
}

/// The `?` count of a filter's condition: the column name's, and one per
/// bound parameter.
proof fn lemma_condition_qmarks(f: Filter, d: Dialect)
    ensures
        qmarks(condition_sql(f, d)) == qmarks(f.column@) + condition_params(f).len(),
{
    let q = if d == Dialect::MySql { '`' } else { '"' };
    let col = quoted_identifier(d, f.column@);
    lemma_qmarks_doubled(f.column@, q);
    lemma_qmarks_add(seq![q], doubled(f.column@, q));
    lemma_qmarks_add(seq![q] + doubled(f.column@, q), seq![q]);
    assert(qmarks(seq![q]) == 0) by {
        assert(seq![q] =~= Seq::<char>::empty().push(q));
        lemma_qmarks_push(Seq::<char>::empty(), q);
    }
    assert(qmarks(col) == qmarks(f.column@));
    reveal_strlit(" IS NULL");
    reveal_strlit(" IS NOT NULL");
    reveal_strlit(" = ?");
    reveal_strlit(" != ?");
    reveal_strlit(" > ?");
    reveal_strlit(" < ?");
    reveal_strlit(" >= ?");
    reveal_strlit(" <= ?");
    reveal_strlit(" LIKE ?");
    reveal_strlit(" NOT LIKE ?");
    reveal_strlit(" IN (");
    reveal_strlit(" NOT IN (");
    reveal_strlit(")");
    reveal_strlit(" BETWEEN ? AND ?");
    reveal_with_fuel(Seq::filter, 20);
    match f.op {
        FilterOp::In | FilterOp::NotIn => {
            let head = if f.op == FilterOp::In { " IN ("@ } else { " NOT IN ("@ };
            let n = split_on(crate::query::filter::raw_value(f), ',').len();
            lemma_qmarks_text(head);
            lemma_qmarks_text(")"@);
            lemma_qmarks_placeholders(n);
            lemma_qmarks_add(col, head);
            lemma_qmarks_add(col + head, placeholders(n));
            lemma_qmarks_add(col + head + placeholders(n), ")"@);
        },
        _ => {
            let tail = match f.op {
                FilterOp::IsNull => " IS NULL"@,
                FilterOp::IsNotNull => " IS NOT NULL"@,
                FilterOp::Equals => " = ?"@,
                FilterOp::NotEquals => " != ?"@,
                FilterOp::GreaterThan => " > ?"@,
                FilterOp::LessThan => " < ?"@,
                FilterOp::GreaterOrEqual => " >= ?"@,
                FilterOp::LessOrEqual => " <= ?"@,
                FilterOp::Like => " LIKE ?"@,
                FilterOp::NotLike => " NOT LIKE ?"@,
                FilterOp::StartsWith => " LIKE ?"@,
                FilterOp::EndsWith => " LIKE ?"@,
                FilterOp::Contains => " LIKE ?"@,
                FilterOp::NotContains => " NOT LIKE ?"@,
                _ => " BETWEEN ? AND ?"@,
            };
            lemma_qmarks_text(tail);
            lemma_qmarks_add(col, tail);
            assert(condition_sql(f, d) == col + tail);
        },
    }
}

proof fn lemma_qmarks_joined(pieces: Seq<Seq<char>>, sep: Seq<char>, total: nat)
    requires
        qmarks(sep) == 0,
        total == pieces.fold_left(0nat, |acc: nat, p: Seq<char>| acc + qmarks(p)),
    ensures
        qmarks(joined(pieces, sep)) == total,
    decreases pieces.len(),
{
    if pieces.len() == 1 {
        assert(pieces.drop_last().fold_left(0nat, |acc: nat, p: Seq<char>| acc + qmarks(p)) == 0) by {
            assert(pieces.drop_last() =~= Seq::<Seq<char>>::empty());
        }
    } else if pieces.len() > 1 {
        let prev = pieces.drop_last();
        lemma_qmarks_joined(prev, sep, prev.fold_left(0nat, |acc: nat, p: Seq<char>| acc + qmarks(p)));
        lemma_qmarks_add(joined(prev, sep), sep);
        lemma_qmarks_add(joined(prev, sep) + sep, pieces.last());
    }
}

/// The `?` count of the conditions of some filters.
proof fn lemma_conditions_qmarks(fs: Seq<Filter>, d: Dialect)
    requires
        forall|i: int| 0 <= i < fs.len() ==> qmarks((#[trigger] fs[i]).column@) == 0,
    ensures
        conditions_sql(fs, d).fold_left(0nat, |acc: nat, p: Seq<char>| acc + qmarks(p)) == filters_params(fs).len(),
    decreases fs.len(),
{
    if fs.len() > 0 {
        let prev = fs.drop_last();
        lemma_conditions_qmarks(prev, d);
        assert(conditions_sql(fs, d).drop_last() =~= conditions_sql(prev, d));
        lemma_condition_qmarks(fs.last(), d);
    } else {
        assert(conditions_sql(fs, d) =~= Seq::<Seq<char>>::empty());
    }
}

/// The WHERE clause built from filters holds one `?` per parameter bound with
/// it, in every dialect, when no filtered column's name holds a `?`.
pub proof fn law_where_placeholders_match_params(fs: Seq<Filter>, d: Dialect)
    requires
        forall|i: int| 0 <= i < fs.len() ==> qmarks((#[trigger] fs[i]).column@) == 0,
    ensures
        qmarks(where_clause(fs, d)) == filters_params(fs).len(),
{
    if fs.len() > 0 {
        reveal_strlit("WHERE ");
        reveal_strlit(" AND ");
        reveal_with_fuel(Seq::filter, 7);
        lemma_qmarks_text("WHERE "@);
        lemma_qmarks_text(" AND "@);
        lemma_conditions_qmarks(fs, d);
        lemma_qmarks_joined(conditions_sql(fs, d), " AND "@,
            conditions_sql(fs, d).fold_left(0nat, |acc: nat, p: Seq<char>| acc + qmarks(p)));
        lemma_qmarks_add("WHERE "@, joined(conditions_sql(fs, d), " AND "@));
    } else {
        assert(filters_params(fs).len() == 0);
    }
}
// ── tabs ──────────────────────────────────────────────────────────────────────

/// Opening a table a second time changes nothing and gives the tab the first
/// opening gave: a table is shown by one tab, whichever tabs were open before.
pub proof fn law_open_table_twice(
    tabs: Seq<Tab>,
    next: usize,
    database: String,
    table: String,
    tabs1: Seq<Tab>,
    next1: usize,
    id1: usize,
    tabs2: Seq<Tab>,
    next2: usize,
    id2: usize,
)
    requires
        opened_table(tabs, next, database, table, tabs1, next1, id1),
        opened_table(tabs1, next1, database, table, tabs2, next2, id2),
    ensures
        tabs2 == tabs1,
        next2 == next1,
        id2 == id1,
{
    let d = database@;
    let t = table@;
    if exists|i: int| 0 <= i < tabs.len() && shows_table(tabs[i], d, t) {
        let i1 = choose|i: int| #![trigger tabs[i]]
            0 <= i < tabs.len() && shows_table(tabs[i], d, t) && id1 == tabs[i].id
            && forall|j: int| 0 <= j < i ==> !shows_table(tabs[j], d, t);
        assert(shows_table(tabs1[i1], d, t));
        let i2 = choose|i: int| #![trigger tabs1[i]]
            0 <= i < tabs1.len() && shows_table(tabs1[i], d, t) && id2 == tabs1[i].id
            && forall|j: int| 0 <= j < i ==> !shows_table(tabs1[j], d, t);
        if i1 < i2 {
            assert(!shows_table(tabs1[i1], d, t));
        } else if i2 < i1 {
            assert(!shows_table(tabs[i2], d, t));
        }
    } else {
        let last = tabs1.len() - 1;
        assert(tabs1[last] == (Tab { id: id1, kind: TabKind::Table { database, table } }));
        assert(shows_table(tabs1[last], d, t));
        let i2 = choose|i: int| #![trigger tabs1[i]]
            0 <= i < tabs1.len() && shows_table(tabs1[i], d, t) && id2 == tabs1[i].id
            && forall|j: int| 0 <= j < i ==> !shows_table(tabs1[j], d, t);
        if i2 < last {
            assert(tabs1[i2] == tabs[i2]);
            assert(shows_table(tabs[i2], d, t));
        }
    }
}

// ── quoted identifiers ────────────────────────────────────────────────────────

/// What a SQL reader takes the body of a quoted identifier to name, reading left
/// to right: two quote characters stand for one; a lone quote character would
/// end the identifier early, and then there is no name (`None`).
pub open spec fn unquoted_body(cs: Seq<char>, q: char) -> Option<Seq<char>>
    decreases cs.len(),
{
    if cs.len() == 0 {
        Some(Seq::empty())
    } else if cs[0] == q {
        if cs.len() >= 2 && cs[1] == q {
            match unquoted_body(cs.skip(2), q) {
                Some(rest) => Some(seq![q] + rest),
                None => None,
            }
        } else {
            None
        }
    } else {
        match unquoted_body(cs.skip(1), q) {
            Some(rest) => Some(seq![cs[0]] + rest),
            None => None,
        }
    }
}

proof fn lemma_doubled_concat(a: Seq<char>, b: Seq<char>, q: char)
    ensures
        doubled(a + b, q) == doubled(a, q) + doubled(b, q),
    decreases b.len(),
{
    if b.len() == 0 {
        assert(a + b =~= a);
        assert(doubled(a, q) + doubled(b, q) =~= doubled(a, q));
    } else {
        lemma_doubled_concat(a, b.drop_last(), q);
        assert((a + b).drop_last() =~= a + b.drop_last());
        assert((a + b).last() == b.last());
        if b.last() == q {
            assert(doubled(a, q) + doubled(b, q) =~= (doubled(a, q) + doubled(b.drop_last(), q)).push(q).push(q));
        } else {
            assert(doubled(a, q) + doubled(b, q) =~= (doubled(a, q) + doubled(b.drop_last(), q)).push(b.last()));
        }
    }
}

proof fn lemma_unquote_doubled(name: Seq<char>, q: char)
    ensures
        unquoted_body(doubled(name, q), q) == Some(name),
    decreases name.len(),
{
    if name.len() > 0 {
        let x = name[0];
        let rest = name.skip(1);
        assert(name =~= seq![x] + rest);
        lemma_doubled_concat(seq![x], rest, q);
        let one = seq![x];
        assert(one.drop_last() =~= Seq::<char>::empty());
        assert(one.last() == x);
        assert(doubled(one.drop_last(), q) =~= Seq::<char>::empty());
        let cs = doubled(name, q);
        lemma_unquote_doubled(rest, q);
        if x == q {
            assert(doubled(one, q) =~= Seq::<char>::empty().push(q).push(q));
            assert(cs.skip(2) =~= doubled(rest, q));
            assert(seq![q] + rest =~= name);
        } else {
            assert(doubled(one, q) =~= Seq::<char>::empty().push(x));
            assert(cs.skip(1) =~= doubled(rest, q));
            assert(seq![x] + rest =~= name);
        }
    }
}

/// A quoted identifier starts and ends with the dialect's quote character, and
/// a reader who takes two quote characters inside it for one gets the name back:
/// no name can end the identifier early, whatever quotes it holds.
pub proof fn law_quoted_identifier_reads_back(d: Dialect, name: Seq<char>)
    ensures
        quoted_identifier(d, name).len() >= 2,
        quoted_identifier(d, name)[0] == identifier_quote(d),
        quoted_identifier(d, name).last() == identifier_quote(d),
        unquoted_body(quoted_identifier(d, name).subrange(1, quoted_identifier(d, name).len() - 1), identifier_quote(d))
            == Some(name),
{
    let q = identifier_quote(d);
    let t = quoted_identifier(d, name);
    assert(t.subrange(1, t.len() - 1) =~= doubled(name, q));
    lemma_unquote_doubled(name, q);
}

// ── joins in formatted SQL ────────────────────────────────────────────────────

/// Whether `s` begins with `p`.
pub open spec fn begins_with(s: Seq<char>, p: Seq<char>) -> bool {
    p.len() <= s.len() && s.subrange(0, p.len() as int) == p
}

/// The keyword a join is written with names its kind: it ends in `JOIN`, its
/// first word is `RIGHT`, `LEFT`, `FULL` or `CROSS` exactly for right, left,
/// full and cross joins, and two different kinds of join (other than the kinds
/// the formatter writes as a plain `JOIN`) never share a keyword; so the
/// formatted text keeps the meaning of each join.
pub proof fn law_join_keyword_names_kind(k1: JoinKind, k2: JoinKind)
    ensures
        join_keyword(k1).len() >= 4,
        join_keyword(k1).subrange(join_keyword(k1).len() - 4, join_keyword(k1).len() as int) == "JOIN"@,
        begins_with(join_keyword(k1), "RIGHT "@) <==> k1 is RightOuter,
        begins_with(join_keyword(k1), "LEFT "@) <==> k1 is LeftOuter,
        begins_with(join_keyword(k1), "FULL "@) <==> k1 is FullOuter,
        begins_with(join_keyword(k1), "CROSS "@) <==> k1 is Cross,
        k1 !is Other && k2 !is Other && k1 != k2 ==> join_keyword(k1) != join_keyword(k2),
{
    reveal_strlit("JOIN");
    reveal_strlit("LEFT JOIN");
    reveal_strlit("RIGHT JOIN");
    reveal_strlit("FULL JOIN");
    reveal_strlit("CROSS JOIN");
    reveal_strlit("RIGHT ");
    reveal_strlit("LEFT ");
    reveal_strlit("FULL ");
    reveal_strlit("CROSS ");
    let a = join_keyword(k1);
    let b = join_keyword(k2);
    assert(a.subrange(a.len() - 4, a.len() as int) =~= "JOIN"@);
    if begins_with(a, "RIGHT "@) {
        assert(a.subrange(0, 6)[0] == a[0]);
        assert("RIGHT "@[0] == 'R');
        assert(a[0] == 'R');
    }
    if begins_with(a, "LEFT "@) {
        assert(a.subrange(0, 5)[0] == a[0]);
        assert("LEFT "@[0] == 'L');
        assert(a[0] == 'L');
    }
    if begins_with(a, "FULL "@) {
        assert(a.subrange(0, 5)[0] == a[0]);
        assert("FULL "@[0] == 'F');
        assert(a[0] == 'F');
    }
    if begins_with(a, "CROSS "@) {
        assert(a.subrange(0, 6)[0] == a[0]);
        assert("CROSS "@[0] == 'C');
        assert(a[0] == 'C');
    }
    match k1 {
        JoinKind::RightOuter => { assert(a.subrange(0, 6) =~= "RIGHT "@); },
        JoinKind::LeftOuter => { assert(a.subrange(0, 5) =~= "LEFT "@); },
        JoinKind::FullOuter => { assert(a.subrange(0, 5) =~= "FULL "@); },
        JoinKind::Cross => { assert(a.subrange(0, 6) =~= "CROSS "@); },
        _ => {},
    }
    if k1 !is Other && k2 !is Other && k1 != k2 {
        if a.len() == b.len() {
            assert(a[0] != b[0]);
        }
    }
}

/// Formatting joins gives one line per join, in order, each beginning with the
/// keyword of its join's kind and then its table.
pub proof fn law_join_lines_follow_joins(js: Seq<ParsedJoin>)
    ensures
        join_texts(js).len() == js.len(),
        forall|i: int| 0 <= i < js.len() ==>
            begins_with(#[trigger] join_texts(js)[i], join_keyword(js[i].kind) + " "@ + table_text(js[i].relation)),
    decreases js.len(),
{
    if js.len() > 0 {
        law_join_lines_follow_joins(js.drop_last());
        let t = join_texts(js);
        let last = js.len() - 1;
        assert forall|i: int| 0 <= i < js.len() implies
            begins_with(#[trigger] join_texts(js)[i], join_keyword(js[i].kind) + " "@ + table_text(js[i].relation)) by {
            if i < last {
                assert(join_texts(js)[i] == join_texts(js.drop_last())[i]);
                assert(js[i] == js.drop_last()[i]);
            } else {
                let head = join_keyword(js[i].kind) + " "@ + table_text(js[i].relation);
                let line = join_texts(js)[i];
                assert(line.subrange(0, head.len() as int) =~= head);
            }
        }
    }
}

// ── negated filters and LIKE patterns ────────────────────────────────────────

/// A filter on the same column and value with another operator.
pub open spec fn with_op(f: Filter, op: FilterOp) -> Filter {
    Filter { op, ..f }
}

/// Each negated filter binds the same parameters as the filter it negates, and
/// its condition is that filter's condition with `NOT` put after the column:
/// "does not contain" excludes exactly the rows that "contains" keeps, and the
/// same for NOT LIKE, NOT IN and IS NOT NULL; "not equals" binds what "equals" binds.
pub proof fn law_negated_filters_mirror(f: Filter, d: Dialect)
    ensures
        condition_params(with_op(f, FilterOp::NotContains)) == condition_params(with_op(f, FilterOp::Contains)),
        condition_params(with_op(f, FilterOp::NotLike)) == condition_params(with_op(f, FilterOp::Like)),
        condition_params(with_op(f, FilterOp::NotIn)) == condition_params(with_op(f, FilterOp::In)),
        condition_params(with_op(f, FilterOp::NotEquals)) == condition_params(with_op(f, FilterOp::Equals)),
        condition_params(with_op(f, FilterOp::IsNotNull)) == condition_params(with_op(f, FilterOp::IsNull)),
        ({
            let col = quoted_identifier(d, f.column@);
            &&& condition_sql(with_op(f, FilterOp::NotContains), d)
                == col + " NOT"@ + condition_sql(with_op(f, FilterOp::Contains), d).skip(col.len() as int)
            &&& condition_sql(with_op(f, FilterOp::NotLike), d)
                == col + " NOT"@ + condition_sql(with_op(f, FilterOp::Like), d).skip(col.len() as int)
            &&& condition_sql(with_op(f, FilterOp::NotIn), d)
                == col + " NOT"@ + condition_sql(with_op(f, FilterOp::In), d).skip(col.len() as int)
        }),
{
    let col = quoted_identifier(d, f.column@);
    reveal_strlit(" NOT");
    reveal_strlit(" LIKE ?");
    reveal_strlit(" NOT LIKE ?");
    reveal_strlit(" IN (");
    reveal_strlit(" NOT IN (");
    assert(raw_value(with_op(f, FilterOp::NotIn)) == raw_value(with_op(f, FilterOp::In)));
    assert(condition_sql(with_op(f, FilterOp::Contains), d).skip(col.len() as int) =~= " LIKE ?"@);
    assert(condition_sql(with_op(f, FilterOp::NotContains), d) =~= col + " NOT"@ + " LIKE ?"@);
    assert(condition_sql(with_op(f, FilterOp::Like), d).skip(col.len() as int) =~= " LIKE ?"@);
    assert(condition_sql(with_op(f, FilterOp::NotLike), d) =~= col + " NOT"@ + " LIKE ?"@);
    let tail = placeholders(split_on(raw_value(f), ',').len()) + ")"@;
    assert(condition_sql(with_op(f, FilterOp::In), d).skip(col.len() as int) =~= " IN ("@ + tail);
    assert(condition_sql(with_op(f, FilterOp::NotIn), d) =~= col + " NOT"@ + (" IN ("@ + tail));
}

/// The LIKE patterns of the text filters all hold the typed value: "starts
/// with" binds the value then `%`, "ends with" binds `%` then the value, and
/// "contains" binds the value between two `%`, which is the "starts with"
/// pattern behind a `%` and the "ends with" pattern before one.
pub proof fn law_like_patterns_hold_value(f: Filter)
    ensures
        ({
            let raw = raw_value(f);
            let s = condition_params(with_op(f, FilterOp::StartsWith));
            let e = condition_params(with_op(f, FilterOp::EndsWith));
            let c = condition_params(with_op(f, FilterOp::Contains));
            &&& s.len() == 1 && e.len() == 1 && c.len() == 1
            &&& s[0].len() == raw.len() + 1 && s[0].take(raw.len() as int) == raw && s[0].last() == '%'
            &&& e[0].len() == raw.len() + 1 && e[0].skip(1) == raw && e[0][0] == '%'
            &&& c[0] == seq!['%'] + s[0]
            &&& c[0] == e[0] + seq!['%']
        }),
{
    let raw = raw_value(f);
    reveal_strlit("%");
    let s = condition_params(with_op(f, FilterOp::StartsWith));
    let e = condition_params(with_op(f, FilterOp::EndsWith));
    let c = condition_params(with_op(f, FilterOp::Contains));
    assert(raw_value(with_op(f, FilterOp::StartsWith)) == raw);
    assert(raw_value(with_op(f, FilterOp::EndsWith)) == raw);
    assert(raw_value(with_op(f, FilterOp::Contains)) == raw);
    assert(s[0].take(raw.len() as int) =~= raw);
    assert(e[0].skip(1) =~= raw);
    assert(c[0] =~= seq!['%'] + s[0]);
    assert(c[0] =~= e[0] + seq!['%']);
}

// ── booleans and SQL keywords ────────────────────────────────────────────────

proof fn lemma_trimmed_plain(t: Seq<char>)
    requires
        forall|i: int| 0 <= i < t.len() ==> 'A' <= #[trigger] t[i] <= 'Z' || 'a' <= t[i] <= 'z',
        t.len() > 0,
    ensures
        trimmed(t) == t,
{
    assert(!crate::chars::unicode_white_space(t[0]));
    assert(!crate::chars::unicode_white_space(t[t.len() - 1]));
    assert(t.subrange(0, t.len() as int) =~= t);
}

/// Booleans are written and shown by what they are: the two values give
/// different display texts ("true" and "false", as Rust writes a `bool`) and
/// different SQL literals; the SQL literal is the display text in upper case
/// (`TRUE`, `FALSE`); and both texts read back as SQL, so a boolean typed back
/// into a cell, or exported and edited, stays a SQL keyword.
pub proof fn law_bool_texts(b1: bool, b2: bool)
    ensures
        Value::Bool(b1).text() == (if b1 { "true"@ } else { "false"@ }),
        Value::Bool(b1).text() == Value::Bool(b2).text() ==> b1 == b2,
        sql_literal_text(Value::Bool(b1)) == sql_literal_text(Value::Bool(b2)) ==> b1 == b2,
        eq_ignore_ascii_case(sql_literal_text(Value::Bool(b1)), Value::Bool(b1).text()),
        forall|i: int| 0 <= i < sql_literal_text(Value::Bool(b1)).len()
            ==> 'A' <= #[trigger] sql_literal_text(Value::Bool(b1))[i] <= 'Z',
        sql_expression_like(Value::Bool(b1).text()),
        sql_expression_like(sql_literal_text(Value::Bool(b1))),
{
    reveal_strlit("true");
    reveal_strlit("false");
    reveal_strlit("TRUE");
    reveal_strlit("FALSE");
    let d = Value::Bool(b1).text();
    let l = sql_literal_text(Value::Bool(b1));
    if Value::Bool(b1).text() == Value::Bool(b2).text() && b1 != b2 {
        assert(Value::Bool(b1).text().len() != Value::Bool(b2).text().len());
    }
    if sql_literal_text(Value::Bool(b1)) == sql_literal_text(Value::Bool(b2)) && b1 != b2 {
        assert(sql_literal_text(Value::Bool(b1)).len() != sql_literal_text(Value::Bool(b2)).len());
    }
    assert forall|i: int| 0 <= i < l.len() implies 'A' <= #[trigger] l[i] <= 'Z' by {
        if b1 {
            assert(l =~= seq!['T', 'R', 'U', 'E']);
        } else {
            assert(l =~= seq!['F', 'A', 'L', 'S', 'E']);
        }
    }
    if b1 {
        assert(l =~= seq!['T', 'R', 'U', 'E']);
        assert(d =~= seq!['t', 'r', 'u', 'e']);
    } else {
        assert(l =~= seq!['F', 'A', 'L', 'S', 'E']);
        assert(d =~= seq!['f', 'a', 'l', 's', 'e']);
    }
    assert forall|i: int| 0 <= i < l.len() implies
        crate::strings::ascii_lower_code(#[trigger] l[i]) == crate::strings::ascii_lower_code(d[i]) by {}
    lemma_trimmed_plain(l);
    lemma_trimmed_plain(d);
    reveal_strlit("TRUE");
    assert(eq_ignore_ascii_case(trimmed(d), l));
    assert(eq_ignore_ascii_case(trimmed(l), l));
    if b1 {
        assert(l =~= "TRUE"@);
    } else {
        assert(l =~= "FALSE"@);
    }
}

/// Any text that, with surrounding whitespace removed, is one of the SQL value
/// keywords NULL, DEFAULT, TRUE, FALSE, CURRENT_TIMESTAMP, CURRENT_DATE or
/// CURRENT_TIME, in any ASCII case, reads as a SQL expression, and typed into a
/// cell it becomes that keyword as raw SQL rather than a string.
pub proof fn law_value_keywords_are_sql(s: Seq<char>, k: Seq<char>)
    requires
        k == "NULL"@ || k == "DEFAULT"@ || k == "TRUE"@ || k == "FALSE"@
            || k == "CURRENT_TIMESTAMP"@ || k == "CURRENT_DATE"@ || k == "CURRENT_TIME"@,
        eq_ignore_ascii_case(trimmed(s), k),
    ensures
        sql_expression_like(s),
        text_value(s) == ValueView::RawSql(trimmed(s)),
{
}

} // verus!
