//! The whole conversion: detect the layout from the first row, decode the
//! rows that follow, map them, and write the output table.

use vstd::prelude::*;
use crate::records::{
    arity, decode_row, fields_fit, fields_row, row_fields, strings_view, OutputRecord,
    SourceDialect, UnifiedRow,
};

verus! {

/// A fatal error of the input side.
#[derive(Debug, Clone, Copy, PartialEq, Eq, Structural)]
pub enum InputError {
    /// The first row's marker names neither known layout.
    UnknownFileType,
    /// The first row is missing or is not a two-field row.
    MalformedHeader,
}

#[verifier::external_type_specification]
#[verifier::external_body]
pub struct ExCsvError(csv::Error);

/// A fatal error of the output side.
#[derive(Debug)]
pub enum OutputError {
    Csv(csv::Error),
}

/// The marker of the checking-account layout: `Kontonummer:`.
pub open spec fn debit_marker() -> Seq<char> {
    seq!['K', 'o', 'n', 't', 'o', 'n', 'u', 'm', 'm', 'e', 'r', ':']
}

/// The marker of the credit-card layout: `Kreditkarte:`.
pub open spec fn credit_marker() -> Seq<char> {
    seq!['K', 'r', 'e', 'd', 'i', 't', 'k', 'a', 'r', 't', 'e', ':']
}

pub open spec fn dialect_of(kind: Seq<char>) -> Result<SourceDialect, InputError> {
    if kind == debit_marker() {
        Ok(SourceDialect::Debit)
    } else if kind == credit_marker() {
        Ok(SourceDialect::Credit)
    } else {
        Err(InputError::UnknownFileType)
    }
}

/// Picks the layout that a first-row marker names.
pub fn detect_dialect(kind: &String) -> (r: Result<SourceDialect, InputError>)
    ensures
        r == dialect_of(kind@),
{
    let debit = String::from_str("Kontonummer:");
    let credit = String::from_str("Kreditkarte:");
    proof {
        reveal_strlit("Kontonummer:");
        reveal_strlit("Kreditkarte:");
        assert(debit@ =~= debit_marker());
        assert(credit@ =~= credit_marker());
    }
    if *kind == debit {
        Ok(SourceDialect::Debit)
    } else if *kind == credit {
        Ok(SourceDialect::Credit)
    } else {
        Err(InputError::UnknownFileType)
    }
}

/// A file whose first row holds two fields is read in the checking-account
/// layout when its marker is `Kontonummer:`, in the credit-card layout when
/// it is `Kreditkarte:`, and is refused as of unknown type for any other
/// marker.
pub proof fn lemma_dialect_detection(rows: Seq<Option<Seq<Seq<char>>>>)
    requires
        rows.len() > 0,
        rows[0] is Some,
        fields_fit(rows[0]->0, 2),
    ensures
        rows[0]->0[0] == debit_marker() ==> file_dialect(rows) == Ok::<SourceDialect, InputError>(SourceDialect::Debit),
        rows[0]->0[0] == credit_marker() ==> file_dialect(rows) == Ok::<SourceDialect, InputError>(SourceDialect::Credit),
        rows[0]->0[0] != debit_marker() && rows[0]->0[0] != credit_marker() ==> converted(rows)
            == Err::<Seq<UnifiedRow>, InputError>(InputError::UnknownFileType),
{
    assert(debit_marker()[1] != credit_marker()[1]);
}

/// The rows that the CSV reader yields for a file's bytes, in order, with
/// `;` between fields and optional double quotes round them; `None` for a
/// row that could not be read as text.
pub uninterp spec fn csv_records(content: Seq<u8>) -> Seq<Option<Seq<Seq<char>>>>;

/// The bytes that the CSV writer produces for a table, with `,` between
/// fields and quotes only where a field needs them.
pub uninterp spec fn csv_document(rows: Seq<Seq<Seq<char>>>) -> Seq<u8>;

pub open spec fn record_view(r: Option<Vec<String>>) -> Option<Seq<Seq<char>>> {
    match r {
        Some(v) => Some(strings_view(v@)),
        None => None,
    }
}

pub open spec fn rows_view(v: Seq<Option<Vec<String>>>) -> Seq<Option<Seq<Seq<char>>>> {
    v.map_values(|r: Option<Vec<String>>| record_view(r))
}

pub open spec fn table_view(v: Seq<Vec<String>>) -> Seq<Seq<Seq<char>>> {
    v.map_values(|r: Vec<String>| strings_view(r@))
}

/// Relies on the csv crate's reader (`ReaderBuilder` with `;` as delimiter,
/// no header handling and rows of any length, then `Reader::records`): it
/// yields each row as text, or an error for a row that is not valid UTF-8.
#[verifier::external_body]
fn read_records(content: &[u8]) -> (r: Vec<Option<Vec<String>>>)
    ensures
        rows_view(r@) == csv_records(content@),
{
    csv::ReaderBuilder::new().has_headers(false).delimiter(b';').flexible(true).from_reader(
        content,
    ).records().map(|rec| rec.ok().map(|f| f.iter().map(String::from).collect())).collect()
}

/// Relies on the csv crate's writer (`Writer::write_record` for each row into
/// a byte buffer, then `Writer::into_inner`): what it returns on success is the
/// encoding of the table. Writing into a byte buffer cannot fail, so the only
/// error is a row whose length differs from the first row's.
#[verifier::external_body]
fn write_records(rows: &Vec<Vec<String>>) -> (r: Result<Vec<u8>, csv::Error>)
    ensures
        r is Ok ==> r->Ok_0@ == csv_document(table_view(rows@)),
        (forall|i: int| 0 <= i < rows@.len() ==> (#[trigger] rows@[i])@.len() == rows@[0]@.len()) ==> r is Ok,
{
    let mut w = csv::Writer::from_writer(Vec::new());
    for row in rows {
        w.write_record(row)?;
    }
    w.into_inner().map_err(|e| csv::Error::from(e.into_error()))
}

/// The layout of a file, read from the marker in its first row; that row
/// must hold two fields.
pub open spec fn file_dialect(rows: Seq<Option<Seq<Seq<char>>>>) -> Result<SourceDialect, InputError> {
    if rows.len() > 0 && rows[0] is Some && fields_fit(rows[0]->0, 2) {
        dialect_of(rows[0]->0[0])
    } else {
        Err(InputError::MalformedHeader)
    }
}

/// The output rows of the data rows that fit the layout, in order.
pub open spec fn well_formed_rows(d: SourceDialect, data: Seq<Option<Seq<Seq<char>>>>) -> Seq<UnifiedRow>
    decreases data.len(),
{
    if data.len() == 0 {
        seq![]
    } else {
        let rest = well_formed_rows(d, data.drop_last());
        match data.last() {
            Some(f) => if fields_fit(f, arity(d)) {
                rest.push(fields_row(d, f))
            } else {
                rest
            },
            None => rest,
        }
    }
}

/// The transactions of a file: every data row after the first that fits the
/// layout. Rows that do not fit (account details, footers) are skipped; the
/// first row that fits is the line of column titles and is dropped too.
pub open spec fn transactions(d: SourceDialect, data: Seq<Option<Seq<Seq<char>>>>) -> Seq<UnifiedRow> {
    let w = well_formed_rows(d, data);
    if w.len() == 0 {
        w
    } else {
        w.drop_first()
    }
}

pub open spec fn converted(rows: Seq<Option<Seq<Seq<char>>>>) -> Result<Seq<UnifiedRow>, InputError> {
    match file_dialect(rows) {
        Ok(d) => Ok(transactions(d, rows.drop_first())),
        Err(e) => Err(e),
    }
}

pub open spec fn records_view(v: Seq<OutputRecord>) -> Seq<UnifiedRow> {
    v.map_values(|o: OutputRecord| o@)
}

pub open spec fn result_view(r: Result<Vec<OutputRecord>, InputError>) -> Result<Seq<UnifiedRow>, InputError> {
    match r {
        Ok(v) => Ok(records_view(v@)),
        Err(e) => Err(e),
    }
}

/// Converts the rows of a source file, as the CSV reader yields them.
pub fn convert_rows(rows: &Vec<Option<Vec<String>>>) -> (r: Result<Vec<OutputRecord>, InputError>)
    ensures
        result_view(r) == converted(rows_view(rows@)),
        r is Ok ==> forall|i: int| 0 <= i < r->Ok_0@.len() ==>
            (#[trigger] r->Ok_0@[i])@.outflow.len() == 0 || r->Ok_0@[i]@.inflow.len() == 0,
{
    let ghost all = rows_view(rows@);
    if rows.len() == 0 {
        return Err(InputError::MalformedHeader);
    }
    let dialect = match &rows[0] {
        Some(header) => {
            let n = header.len();
            if !(n == 2 || (n == 3 && header[2].unicode_len() == 0)) {
                return Err(InputError::MalformedHeader);
            }
            assert(all[0] == Some(strings_view(header@)));
            match detect_dialect(&header[0]) {
                Ok(d) => d,
                Err(e) => {
                    return Err(e);
                },
            }
        },
        None => {
            return Err(InputError::MalformedHeader);
        },
    };
    let ghost data = all.drop_first();
    let mut out: Vec<OutputRecord> = Vec::new();
    let mut seen = false;
    let mut i: usize = 1;
    while i < rows.len()
        invariant
            all == rows_view(rows@),
            data == all.drop_first(),
            1 <= i <= rows.len(),
            seen == (well_formed_rows(dialect, data.subrange(0, i - 1)).len() > 0),
            records_view(out@) == transactions(dialect, data.subrange(0, i - 1)),
            forall|k: int| 0 <= k < out@.len() ==>
                (#[trigger] out@[k])@.outflow.len() == 0 || out@[k]@.inflow.len() == 0,
        decreases rows.len() - i,
    {
        let ghost prev = data.subrange(0, i - 1);
        let ghost next = data.subrange(0, i as int);
        assert(next.drop_last() =~= prev);
        assert(next.last() == all[i as int]);
        if let Some(fields) = &rows[i] {
            assert(all[i as int] == Some(strings_view(fields@)));
            if let Some(raw) = decode_row(dialect, fields) {
                let rec = OutputRecord::from_raw(raw);
                let ghost wp = well_formed_rows(dialect, prev);
                assert(well_formed_rows(dialect, next) == wp.push(rec@));
                if seen {
                    assert(wp.push(rec@).drop_first() =~= wp.drop_first().push(rec@));
                    out.push(rec);
                    assert(records_view(out@) =~= transactions(dialect, next));
                } else {
                    seen = true;
                    assert(records_view(out@) =~= transactions(dialect, next));
                }
            }
        }
        i = i + 1;
    }
    assert(data.subrange(0, i - 1) =~= data);
    Ok(out)
}

/// Reads a source file's bytes into output records.
pub fn read_input_csv(content: &[u8]) -> (r: Result<Vec<OutputRecord>, InputError>)
    ensures
        result_view(r) == converted(csv_records(content@)),
{
    let rows = read_records(content);
    convert_rows(&rows)
}

/// The column titles of the output.
pub open spec fn header_fields() -> Seq<Seq<char>> {
    seq![
        seq!['D', 'a', 't', 'e'],
        seq!['P', 'a', 'y', 'e', 'e'],
        seq!['C', 'a', 't', 'e', 'g', 'o', 'r', 'y'],
        seq!['M', 'e', 'm', 'o'],
        seq!['O', 'u', 't', 'f', 'l', 'o', 'w'],
        seq!['I', 'n', 'f', 'l', 'o', 'w'],
    ]
}

/// The output table: the title row, then one row per record.
pub open spec fn output_table(recs: Seq<UnifiedRow>) -> Seq<Seq<Seq<char>>> {
    seq![header_fields()] + recs.map_values(|u: UnifiedRow| row_fields(u))
}

/// The output table of a sequence of records, as rows of text fields.
pub fn output_rows(data: &Vec<OutputRecord>) -> (r: Vec<Vec<String>>)
    ensures
        table_view(r@) == output_table(records_view(data@)),
{
    let titles = vec![
        String::from_str("Date"),
        String::from_str("Payee"),
        String::from_str("Category"),
        String::from_str("Memo"),
        String::from_str("Outflow"),
        String::from_str("Inflow"),
    ];
    proof {
        reveal_strlit("Date");
        reveal_strlit("Payee");
        reveal_strlit("Category");
        reveal_strlit("Memo");
        reveal_strlit("Outflow");
        reveal_strlit("Inflow");
        assert(titles@[0]@ =~= header_fields()[0]);
        assert(titles@[1]@ =~= header_fields()[1]);
        assert(titles@[2]@ =~= header_fields()[2]);
        assert(titles@[3]@ =~= header_fields()[3]);
        assert(titles@[4]@ =~= header_fields()[4]);
        assert(titles@[5]@ =~= header_fields()[5]);
        assert(strings_view(titles@) =~= header_fields());
    }
    let mut r: Vec<Vec<String>> = vec![titles];
    let mut i: usize = 0;
    while i < data.len()
        invariant
            i <= data.len(),
            table_view(r@) =~= output_table(records_view(data@.subrange(0, i as int))),
        decreases data.len() - i,
    {
        let f = data[i].fields();
        let ghost old_r = r@;
        r.push(f);
        assert(r@ == old_r.push(f));
        assert(table_view(r@) =~= table_view(old_r).push(row_fields(data@[i as int]@)));
        assert(records_view(data@.subrange(0, i + 1)) =~= records_view(data@.subrange(0, i as int)).push(data@[i as int]@));
        assert(table_view(r@) =~= output_table(records_view(data@.subrange(0, i + 1))));
        i = i + 1;
    }
    assert(data@.subrange(0, i as int) =~= data@);
    r
}

/// Encodes records as the output CSV document, title row first.
pub fn write_output_csv(data: &Vec<OutputRecord>) -> (r: Result<Vec<u8>, OutputError>)
    ensures
        r is Ok,
        r->Ok_0@ == csv_document(output_table(records_view(data@))),
{
    let rows = output_rows(data);
    proof {
        let t = output_table(records_view(data@));
        assert(table_view(rows@).len() == rows@.len());
        assert(t.len() == records_view(data@).len() + 1);
        assert forall|i: int| 0 <= i < rows@.len() implies (#[trigger] rows@[i])@.len() == rows@[0]@.len() by {
            assert(table_view(rows@)[i] == strings_view(rows@[i]@));
            assert(table_view(rows@)[0] == strings_view(rows@[0]@));
            assert(t[0] == header_fields());
            if i > 0 {
                let m = records_view(data@).map_values(|u: UnifiedRow| row_fields(u));
                assert(t[i] == m[i - 1]);
                assert(m[i - 1] == row_fields(records_view(data@)[i - 1]));
            }
        }
    }
    match write_records(&rows) {
        Ok(bytes) => Ok(bytes),
        Err(e) => Err(OutputError::Csv(e)),
    }
}

} // verus!
