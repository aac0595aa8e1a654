//! The conversion of a CSV document into JSON, YAML or TOML text.

use vstd::prelude::*;
use crate::encode::{encode, encoded, json_text, record_views, toml_text, yaml_text, TOML_FIELD};
use crate::error::ConvertError;
use crate::opts::OutputFormat;
use crate::record::{
    distinct_keys, distinct_names, lemma_distinct_pairs_are_kept, record_of, zip_cells, Record,
};
use crate::table::{parsed_table, read_table, rectangular, Table};

pub mod gen_pass;

verus! {

/// A football player as one row of a squad list holds it.
#[derive(Debug)]
pub struct Player {
    pub name: String,
    pub position: String,
    pub dob: String,
    pub nationality: String,
    pub kit_number: u8,
}

/// The records of the rows `rows` under `header`, one per row, in order.
pub open spec fn records_of(header: Seq<Seq<char>>, rows: Seq<Seq<Seq<char>>>) -> Seq<
    Seq<(Seq<char>, Seq<char>)>,
> {
    Seq::new(rows.len(), |i: int| record_of(header, rows[i]))
}

/// What the conversion of the document `data` into `format` yields: the
/// text, or `None` where the document is malformed or the encoder fails.
pub open spec fn converted(data: Seq<u8>, format: OutputFormat) -> Option<Seq<char>> {
    match parsed_table(data) {
        Some((header, rows)) => encoded(format, records_of(header, rows)),
        None => None,
    }
}

/// Turns each row of `table` into a record under the table's header. The
/// order of the rows is kept.
pub fn build_records(table: &Table) -> (records: Vec<Record>)
    ensures
        record_views(records@) == records_of(table.header_view(), table.rows_view()),
{
    let mut records: Vec<Record> = Vec::new();
    let mut i: usize = 0;
    while i < table.rows.len()
        invariant
            i <= table.rows@.len(),
            records@.len() == i,
            forall|j: int|
                0 <= j < i ==> (#[trigger] records@[j])@ == record_of(
                    table.header_view(),
                    table.rows_view()[j],
                ),
        decreases table.rows@.len() - i,
    {
        let record = Record::from_row(&table.header, &table.rows[i]);
        records.push(record);
        i = i + 1;
    }
    records
}

/// Converts a table into text in `format`: its rows become records, and the
/// records are handed to the encoder of the format.
pub fn convert_table(table: &Table, format: OutputFormat) -> (result: Result<String, ConvertError>)
    ensures
        match result {
            Ok(text) => encoded(format, records_of(table.header_view(), table.rows_view()))
                == Some(text@),
            Err(error) => encoded(format, records_of(table.header_view(), table.rows_view()))
                is None && error is Encoding,
        },
{
    let records = build_records(table);
    encode(&records, format)
}

/// Converts the CSV document `input` into text in `format`. The first row
/// names the columns; every further row becomes one record that holds its
/// cells, as text, under those names. The result is the encoded text exactly
/// where the document is well formed and the encoder accepts the records;
/// a malformed document gives a parse error, a refusal of the encoder an
/// encoding error.
pub fn process_csv(input: &[u8], format: OutputFormat) -> (result: Result<String, ConvertError>)
    ensures
        match result {
            Ok(text) => converted(input@, format) == Some(text@),
            Err(error) => converted(input@, format) is None && (error is Parse <==> parsed_table(
                input@,
            ) is None) && (error is Encoding <==> parsed_table(input@) is Some),
        },
{
    match read_table(input) {
        Ok(table) => convert_table(&table, format),
        Err(error) => Err(error),
    }
}

/// Under a header without repeated names, a table whose rows are as wide as
/// the header becomes one record per row, in order; each record has one
/// field per column, in order, which holds the column's name and the row's
/// cell in that column.
pub proof fn lemma_rows_are_kept(header: Seq<Seq<char>>, rows: Seq<Seq<Seq<char>>>)
    requires
        distinct_names(header),
        rectangular(header, rows),
    ensures
        records_of(header, rows).len() == rows.len(),
        forall|i: int|
            0 <= i < rows.len() ==> (#[trigger] records_of(header, rows)[i]).len() == header.len(),
        forall|i: int, j: int|
            0 <= i < rows.len() && 0 <= j < header.len() ==> #[trigger] records_of(
                header,
                rows,
            )[i][j] == (header[j], rows[i][j]),
{
    assert forall|i: int| 0 <= i < rows.len() implies #[trigger] records_of(header, rows)[i]
        == zip_cells(header, rows[i]) by {
        let pairs = zip_cells(header, rows[i]);
        assert(distinct_keys(pairs));
        lemma_distinct_pairs_are_kept(pairs);
    }
}

/// The rows of `rows` paired with the names of `header`, cell by cell.
pub open spec fn paired_rows(header: Seq<Seq<char>>, rows: Seq<Seq<Seq<char>>>) -> Seq<
    Seq<(Seq<char>, Seq<char>)>,
> {
    Seq::new(rows.len(), |i: int| zip_cells(header, rows[i]))
}

/// A document whose header has no repeated names and whose rows are as wide
/// as the header is converted into the text of its rows, each paired cell by
/// cell with the column names.
pub proof fn lemma_conversion_keeps_rows(data: Seq<u8>, format: OutputFormat)
    requires
        parsed_table(data) is Some,
        distinct_names(parsed_table(data).unwrap().0),
        rectangular(parsed_table(data).unwrap().0, parsed_table(data).unwrap().1),
    ensures
        converted(data, format) == encoded(
            format,
            paired_rows(parsed_table(data).unwrap().0, parsed_table(data).unwrap().1),
        ),
{
    let (header, rows) = parsed_table(data).unwrap();
    lemma_rows_are_kept(header, rows);
    assert forall|i: int| 0 <= i < rows.len() implies #[trigger] records_of(header, rows)[i]
        == zip_cells(header, rows[i]) by {
        assert(records_of(header, rows)[i].len() == header.len());
        assert forall|j: int| 0 <= j < header.len() implies #[trigger] records_of(
            header,
            rows,
        )[i][j] == zip_cells(header, rows[i])[j] by {}
        assert(records_of(header, rows)[i] =~= zip_cells(header, rows[i]));
    }
    assert(records_of(header, rows) =~= paired_rows(header, rows));
}

/// A table without data rows has no records, whatever its header.
pub proof fn lemma_no_rows_no_records(header: Seq<Seq<char>>)
    ensures
        records_of(header, Seq::empty()) == Seq::<Seq<(Seq<char>, Seq<char>)>>::empty(),
{
}

/// A document that holds a header and no data rows is converted into the
/// text of the empty sequence of records.
pub proof fn lemma_header_alone(data: Seq<u8>, format: OutputFormat)
    requires
        parsed_table(data) is Some,
        parsed_table(data).unwrap().1.len() == 0,
    ensures
        converted(data, format) == encoded(format, Seq::empty()),
{
    let (header, rows) = parsed_table(data).unwrap();
    assert(records_of(header, rows) =~= Seq::empty());
}

/// JSON and YAML text is that of the bare sequence of records; TOML text is
/// that of a document with the single field [`TOML_FIELD`], which holds the
/// sequence.
pub proof fn lemma_shape_of_documents(records: Seq<Seq<(Seq<char>, Seq<char>)>>)
    ensures
        encoded(OutputFormat::Json, records) == json_text(records),
        encoded(OutputFormat::Yaml, records) == yaml_text(records),
        encoded(OutputFormat::Toml, records) == toml_text(TOML_FIELD@, records),
        TOML_FIELD@ == seq!['d', 'a', 't', 'a'],
{
    reveal_strlit("data");
}

} // verus!
