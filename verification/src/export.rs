//! Tables as CSV: a header record with the keys of the first row, then
//! one record for each row, encoded by the `csv` crate.

use crate::faker::{
    distinct_names, lemma_row_has_one_entry_for_each_column, lemma_row_value_fits_its_column,
    names_of, row_fits, value_fits,
};
use crate::schema::Column;
use crate::table::{keys_of, lookup, Entries, Row};
use crate::text::views;
use vstd::prelude::*;

verus! {

/// The error type of the `csv` crate.
#[verifier::external_type_specification]
#[verifier::external_body]
pub struct ExCsvError(csv::Error);

/// Why a table was not written.
#[derive(Debug, PartialEq, Eq)]
pub enum WriteError {
    /// The table has no rows, so nothing says what its columns are.
    EmptyTable,
    /// The encoder turned a record down; its message is handed on.
    Encoding(String),
}

/// The fields of the record for `row` under `header`: for each name of
/// the header the value that the row has under it, or the empty text where
/// it has none.
pub open spec fn record_of(row: Entries, header: Seq<Seq<char>>) -> Seq<Seq<char>> {
    Seq::new(
        header.len(),
        |j: int|
            match lookup(row, header[j]) {
                Some(value) => value,
                None => Seq::empty(),
            },
    )
}

/// The records of a table that has a row: the header, which holds the
/// keys of the first row in their order, and then the record of each row
/// under that header.
pub open spec fn records_of(table: Seq<Entries>) -> Seq<Seq<Seq<char>>> {
    let header = keys_of(table[0]);
    seq![header] + Seq::new(table.len(), |r: int| record_of(table[r], header))
}

/// What each record of `records` holds.
pub open spec fn texts(records: Seq<Vec<String>>) -> Seq<Seq<Seq<char>>> {
    Seq::new(records.len(), |r: int| views(records[r]@))
}

/// The bytes that a `csv::Writer` with the default settings writes for
/// one record of the given fields, line end included, where it accepts
/// the record.
pub uninterp spec fn csv_record(fields: Seq<Seq<char>>) -> Option<Seq<u8>>;

/// The bytes of a CSV document: its records' bytes one after the other,
/// where every record is accepted.
pub open spec fn csv_document(records: Seq<Seq<Seq<char>>>) -> Option<Seq<u8>>
    decreases records.len(),
{
    if records.len() == 0 {
        Some(Seq::empty())
    } else {
        match (csv_document(records.drop_last()), csv_record(records.last())) {
            (Some(front), Some(last)) => Some(front + last),
            _ => None,
        }
    }
}

/// `csv::Writer::write_record` on a fresh writer with the default
/// settings whose output goes to memory, followed by `into_inner` to take
/// the output. The writer puts a comma between fields, quotes a field
/// where it has to, and ends the record with a line feed. The contract
/// claims that the outcome depends on the fields alone: `csv_record` stands
/// for the bytes, and for the refusal where the writer reports an error.
#[verifier::external_body]
fn encode_record(fields: &Vec<String>) -> (encoded: Result<Vec<u8>, csv::Error>)
    ensures
        match encoded {
            Ok(bytes) => csv_record(views(fields@)) == Some(bytes@),
            Err(_) => csv_record(views(fields@)) is None,
        },
{
    let mut writer = csv::Writer::from_writer(Vec::new());
    writer.write_record(fields)?;
    match writer.into_inner() {
        Ok(bytes) => Ok(bytes),
        Err(e) => Err(csv::Error::from(e.into_error())),
    }
}

/// The message of an error of the `csv` crate, as its `Display` gives it.
#[verifier::external_body]
fn error_text(error: &csv::Error) -> String {
    error.to_string()
}

/// The header of `table`: the keys of its first row.
pub fn header(table: &Vec<Row>) -> (found: Result<Vec<String>, WriteError>)
    ensures
        match found {
            Ok(names) => table@.len() > 0 && views(names@) == keys_of(table@[0]@),
            Err(e) => table@.len() == 0 && e is EmptyTable,
        },
{
    if table.len() == 0 {
        Err(WriteError::EmptyTable)
    } else {
        Ok(table[0].keys())
    }
}

/// The record of `row` under `header`.
pub fn record(row: &Row, header: &Vec<String>) -> (fields: Vec<String>)
    ensures
        views(fields@) == record_of(row@, views(header@)),
{
    let mut fields: Vec<String> = Vec::new();
    let mut j: usize = 0;
    while j < header.len()
        invariant
            j <= header.len(),
            fields@.len() == j,
            forall|k: int|
                0 <= k < j ==> (#[trigger] fields@[k])@ == record_of(row@, views(header@))[k],
        decreases header.len() - j,
    {
        let field = match row.get(header[j].as_str()) {
            Some(value) => value.clone(),
            None => String::new(),
        };
        fields.push(field);
        j += 1;
    }
    assert(views(fields@) =~= record_of(row@, views(header@)));
    fields
}

/// The records of `table`, header first. A table without rows has none.
pub fn records(table: &Vec<Row>) -> (found: Result<Vec<Vec<String>>, WriteError>)
    ensures
        match found {
            Ok(records) => table@.len() > 0 && texts(records@) == records_of(views(table@)),
            Err(e) => table@.len() == 0 && e is EmptyTable,
        },
{
    let names = match header(table) {
        Ok(names) => names,
        Err(e) => {
            return Err(e);
        },
    };
    let ghost head = keys_of(table@[0]@);
    let mut rest: Vec<Vec<String>> = Vec::new();
    let mut r: usize = 0;
    while r < table.len()
        invariant
            r <= table.len(),
            views(names@) == head,
            rest@.len() == r,
            forall|k: int|
                0 <= k < r ==> views((#[trigger] rest@[k])@) == record_of(table@[k]@, head),
        decreases table.len() - r,
    {
        let fields = record(&table[r], &names);
        rest.push(fields);
        r += 1;
    }
    let mut all: Vec<Vec<String>> = Vec::new();
    all.push(names);
    all.append(&mut rest);
    assert(texts(all@) =~= records_of(views(table@)));
    Ok(all)
}

/// Puts an encoded record behind `document`, or reports that the encoder
/// turned the record down and leaves `document` as it is.
pub fn append_encoded(document: &mut Vec<u8>, encoded: Result<Vec<u8>, csv::Error>) -> (done:
    Result<(), WriteError>)
    ensures
        match encoded {
            Ok(bytes) => done is Ok && final(document)@ == old(document)@ + bytes@,
            Err(_) => done matches Err(e) && e is Encoding && final(document)@ == old(document)@,
        },
{
    match encoded {
        Ok(bytes) => {
            let mut bytes = bytes;
            document.append(&mut bytes);
            Ok(())
        },
        Err(error) => Err(WriteError::Encoding(error_text(&error))),
    }
}

/// Encodes `records` as one CSV document.
pub fn encode(records: &Vec<Vec<String>>) -> (written: Result<Vec<u8>, WriteError>)
    ensures
        match written {
            Ok(bytes) => csv_document(texts(records@)) == Some(bytes@),
            Err(e) => e is Encoding && csv_document(texts(records@)) is None,
        },
{
    let mut document: Vec<u8> = Vec::new();
    let mut r: usize = 0;
    proof {
        assert(texts(records@).take(0).len() == 0);
    }
    while r < records.len()
        invariant
            r <= records.len(),
            csv_document(texts(records@).take(r as int)) == Some(document@),
        decreases records.len() - r,
    {
        let encoded = encode_record(&records[r]);
        proof {
            let front = texts(records@).take(r as int);
            let next = texts(records@).take(r + 1);
            assert(next.drop_last() == front);
            assert(next.last() == views(records@[r as int]@));
            if encoded is Err {
                lemma_refused_record(texts(records@), r as int);
            }
        }
        match append_encoded(&mut document, encoded) {
            Ok(()) => {},
            Err(e) => {
                return Err(e);
            },
        }
        r += 1;
    }
    proof {
        assert(texts(records@).take(r as int) == texts(records@));
    }
    Ok(document)
}

/// Writes `data` as CSV: the header, then one record for each row. A
/// table without rows is refused, as it has no header to give.
pub fn write_data_to_csv(data: Vec<Row>) -> (written: Result<Vec<u8>, WriteError>)
    ensures
        match written {
            Ok(bytes) => data@.len() > 0 && csv_document(records_of(views(data@))) == Some(bytes@),
            Err(WriteError::EmptyTable) => data@.len() == 0,
            Err(WriteError::Encoding(_)) => data@.len() > 0 && csv_document(
                records_of(views(data@)),
            ) is None,
        },
{
    match records(&data) {
        Ok(records) => encode(&records),
        Err(e) => Err(e),
    }
}

/// A document with a record that the encoder turns down has no bytes.
pub proof fn lemma_refused_record(records: Seq<Seq<Seq<char>>>, r: int)
    requires
        0 <= r < records.len(),
        csv_record(records[r]) is None,
    ensures
        csv_document(records) is None,
    decreases records.len(),
{
    if r < records.len() - 1 {
        lemma_refused_record(records.drop_last(), r);
    }
}

/// The records of a table with rows: one more than there are rows; the
/// first holds the keys of the first row; every record has as many fields
/// as the header; and the field of a row under a name of the header is
/// the row's value under that name, where it has one.
pub proof fn lemma_records_of(table: Seq<Entries>)
    requires
        table.len() > 0,
    ensures
        records_of(table).len() == table.len() + 1,
        records_of(table)[0] == keys_of(table[0]),
        forall|r: int|
            0 <= r < records_of(table).len() ==> (#[trigger] records_of(table)[r]).len() == keys_of(
                table[0],
            ).len(),
        forall|r: int, j: int|
            0 <= r < table.len() && 0 <= j < keys_of(table[0]).len() ==> (lookup(
                table[r],
                keys_of(table[0])[j],
            ) matches Some(value) ==> #[trigger] records_of(table)[r + 1][j] == value),
{
}

/// The records of a table whose rows were made up for `columns`, no two of
/// which share a name: the header holds the names of the columns in their
/// order, and every other record holds, column by column, a value of the
/// kind of that column.
pub proof fn lemma_records_of_rows_for_columns(table: Seq<Entries>, columns: Seq<Column>)
    requires
        table.len() > 0,
        forall|r: int| 0 <= r < table.len() ==> row_fits(#[trigger] table[r], columns),
        distinct_names(columns),
    ensures
        records_of(table).len() == table.len() + 1,
        records_of(table)[0] == names_of(columns),
        forall|r: int, j: int|
            0 <= r < table.len() && 0 <= j < columns.len() ==> value_fits(
                columns[j].kind,
                #[trigger] records_of(table)[r + 1][j],
            ),
{
    lemma_row_has_one_entry_for_each_column(table[0], columns);
    let header = names_of(columns);
    assert forall|r: int, j: int| 0 <= r < table.len() && 0 <= j < columns.len() implies value_fits(
        columns[j].kind,
        #[trigger] records_of(table)[r + 1][j],
    ) by {
        assert(row_fits(table[r], columns));
        lemma_row_value_fits_its_column(table[r], columns, j);
        assert(header[j] == columns[j].name);
        assert(records_of(table)[r + 1] == record_of(table[r], header));
    }
}

} // verus!
