//! Export of a result as CSV: a header record of the column names, then one
//! record per row of the values' display texts, written by the `csv` crate.

use vstd::prelude::*;
use vstd::utf8::*;
use crate::db::types::{QueryResult, Value};
use crate::export::ExportError;
use crate::export::sql_export::{column_name_list, column_names};
use crate::strings::{doubled, joined, string_from_utf8, views};

verus! {

broadcast use encode_utf8_valid_utf8, encode_utf8_decode_utf8;

/// A `csv::Writer` into memory. Verus cannot declare the writer type itself (its
/// parameter is bound by `std::io::Write`), so it is held here, out of sight.
#[verifier::external_body]
pub struct CsvWriter {
    inner: csv::Writer<Vec<u8>>,
}

/// The records a CSV writer into memory has written, each a list of fields.
pub uninterp spec fn csv_records(w: CsvWriter) -> Seq<Seq<Seq<char>>>;

/// Whether a CSV writer has returned no error so far. After a refused record
/// the writer keeps the fields it had already buffered, so what it holds is then
/// no longer a list of complete records.
pub uninterp spec fn csv_sound(w: CsvWriter) -> bool;

/// A field as a CSV writer with the crate's default settings writes it: as it
/// is, unless it holds a comma, a double quote, a carriage return or a line
/// feed; then in double quotes, with each double quote doubled.
pub open spec fn csv_field_text(f: Seq<char>) -> Seq<char> {
    if f.contains(',') || f.contains('"') || f.contains('\r') || f.contains('\n') {
        seq!['"'] + doubled(f, '"') + seq!['"']
    } else {
        f
    }
}

/// A record as the default writer writes it: the fields joined by commas and a
/// line feed; a record that would write nothing before the line feed (no
/// fields, or one empty field) is written as `""`.
pub open spec fn csv_record_text(r: Seq<Seq<char>>) -> Seq<char> {
    let line = joined(r.map_values(|f: Seq<char>| csv_field_text(f)), ","@);
    if line.len() == 0 {
        "\"\"\n"@
    } else {
        line + "\n"@
    }
}

/// The text of the records, one after the other.
pub open spec fn csv_chars(records: Seq<Seq<Seq<char>>>) -> Seq<char> {
    records.map_values(|r: Seq<Seq<char>>| csv_record_text(r)).flatten()
}

/// The bytes that a CSV writer with the crate's default settings (comma
/// delimiter, `\n` terminator, quoting only where needed, quotes doubled)
/// produces for the records: the UTF-8 encoding of their text.
pub open spec fn csv_text(records: Seq<Seq<Seq<char>>>) -> Seq<u8> {
    encode_utf8(csv_chars(records))
}

/// Calls `csv::Writer::from_writer` on an empty `Vec<u8>`: a writer with the
/// default settings that has written nothing and seen no error.
#[verifier::external_body]
fn csv_writer() -> (w: CsvWriter)
    ensures
        csv_sound(w),
        csv_records(w) == Seq::<Seq<Seq<char>>>::empty(),
{
    CsvWriter { inner: csv::Writer::from_writer(Vec::new()) }
}

/// Calls `Writer::write_record` with the fields. With the default settings the
/// writer is not flexible: a record whose field count differs from the first
/// record's is refused (`UnequalLengths`); writing into a `Vec` raises no I/O
/// error. It is only called on a writer that has seen no error. On success the
/// record is the writer's last and the writer has still seen no error; after an
/// error nothing is stated of the writer. The error's text is not stated.
#[verifier::external_body]
fn csv_write_record(w: &mut CsvWriter, fields: &Vec<String>) -> (r: Result<(), String>)
    requires
        csv_sound(*old(w)),
    ensures
        r is Ok ==> csv_sound(*final(w)),
        r is Ok <==> (csv_records(*old(w)).len() == 0 || fields@.len() == csv_records(*old(w))[0].len()),
        r is Ok ==> csv_records(*final(w)) == csv_records(*old(w)).push(views(fields@)),
{
    w.inner.write_record(fields).map_err(|e| e.to_string())
}

/// Calls `Writer::into_inner`: flushes and hands back the bytes written, which
/// are `csv_text` of the records. Flushing into a `Vec` cannot fail (its
/// `io::Write` appends and its `flush` does nothing), so the result is `Ok`.
/// It is only called on a writer that has seen no error.
#[verifier::external_body]
fn csv_into_bytes(w: CsvWriter) -> (r: Result<Vec<u8>, String>)
    requires
        csv_sound(w),
    ensures
        r is Ok,
        r matches Ok(b) ==> b@ == csv_text(csv_records(w)),
{
    w.inner.into_inner().map_err(|e| e.to_string())
}

/// The display texts of a row's values.
pub open spec fn row_texts(row: Seq<Value>) -> Seq<Seq<char>> {
    row.map_values(|v: Value| v.text())
}

/// The records of a CSV export: the column names, then each row's texts.
pub open spec fn csv_export_records(result: QueryResult) -> Seq<Seq<Seq<char>>> {
    seq![column_names(result.columns@)] + result.rows@.map_values(|row: Vec<Value>| row_texts(row@))
}

/// Whether every row has as many values as there are columns.
pub open spec fn rows_match_columns(result: QueryResult) -> bool {
    forall|i: int| 0 <= i < result.rows@.len() ==> (#[trigger] result.rows@[i])@.len() == result.columns@.len()
}

/// The display texts of a row's values.
fn text_list(row: &Vec<Value>) -> (r: Vec<String>)
    requires
        forall|j: int| 0 <= j < row@.len() ==> (#[trigger] row@[j]).wf(),
    ensures
        views(r@) == row_texts(row@),
{
    let mut r: Vec<String> = Vec::new();
    let n = row.len();
    let mut i: usize = 0;
    while i < n
        invariant
            i <= n == row@.len(),
            forall|j: int| 0 <= j < row@.len() ==> (#[trigger] row@[j]).wf(),
            views(r@) == row_texts(row@.take(i as int)),
        decreases n - i,
    {
        let t = row[i].to_display_string();
        proof {
            crate::strings::lemma_views_push(r@, t);
            assert(row_texts(row@.take(i + 1)) =~= row_texts(row@.take(i as int)).push(t@));
        }
        r.push(t);
        i = i + 1;
    }
    proof {
        assert(row@.take(n as int) =~= row@);
    }
    r
}

/// Writes the result as CSV: the column names, then one record per row of the
/// values' display texts. The `csv` writer refuses a row whose length differs
/// from the number of columns (a CSV error); the text is the writer's bytes,
/// which must be UTF-8 (else a CSV error too).
pub fn export(result: &QueryResult) -> (r: Result<String, ExportError>)
    requires
        result.wf(),
    ensures
        r is Ok <==> rows_match_columns(*result),
        r matches Ok(s) ==> s@ == csv_chars(csv_export_records(*result)),
        r matches Err(e) ==> e is Csv,
{
    let ghost records = csv_export_records(*result);
    let mut w = csv_writer();
    let headers = column_name_list(&result.columns);
    match csv_write_record(&mut w, &headers) {
        Ok(()) => {},
        Err(m) => return Err(ExportError::Csv(m)),
    }
    proof {
        assert(csv_records(w) =~= records.take(1));
    }
    let n = result.rows.len();
    let mut i: usize = 0;
    while i < n
        invariant
            i <= n == result.rows@.len(),
            result.wf(),
            records == csv_export_records(*result),
            csv_sound(w),
            csv_records(w) == records.take(i + 1),
            forall|k: int| 0 <= k < i ==> (#[trigger] result.rows@[k])@.len() == result.columns@.len(),
        decreases n - i,
    {
        let row = &result.rows[i];
        proof {
            assert forall|j: int| 0 <= j < row@.len() implies (#[trigger] row@[j]).wf() by {
                assert(result.rows@[i as int]@[j].wf());
            }
        }
        let fields = text_list(row);
        proof {
            assert(records[0] == column_names(result.columns@));
            assert(records.take(i + 1)[0] == records[0]);
            assert(records[i + 1] == row_texts(row@));
        }
        match csv_write_record(&mut w, &fields) {
            Ok(()) => {},
            Err(m) => {
                proof {
                    assert(!rows_match_columns(*result)) by {
                        assert(row@.len() != result.columns@.len());
                    }
                }
                return Err(ExportError::Csv(m));
            },
        }
        proof {
            assert(records.take(i + 2) =~= records.take(i + 1).push(records[i + 1]));
        }
        i = i + 1;
    }
    proof {
        assert(records.take(n + 1) =~= records);
    }
    let bytes = match csv_into_bytes(w) {
        Ok(b) => b,
        Err(m) => return Err(ExportError::Csv(m)),
    };
    match string_from_utf8(bytes) {
        Ok(s) => Ok(s),
        Err(m) => Err(ExportError::Csv(m)),
    }
}

} // verus!
