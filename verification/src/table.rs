//! Reading a CSV document into a header and its data rows.
//!
//! The bytes are parsed by the `csv` crate with its default settings: comma
//! as delimiter, the first row as header, and every row with as many cells
//! as the first. This module drives the reader record by record and stops at
//! the first row that the reader rejects.

use vstd::prelude::*;
use crate::error::ConvertError;
use crate::record::texts;

verus! {

#[verifier::external_type_specification]
#[verifier::external_body]
#[verifier::reject_recursive_types(R)]
pub struct ExReader<R>(csv::Reader<R>);

#[verifier::external_type_specification]
#[verifier::external_body]
pub struct ExCsvError(csv::Error);

/// The header row that a reader with the default settings finds in the
/// bytes `data`: its fields, or `None` where the row is not valid UTF-8.
pub uninterp spec fn csv_header(data: Seq<u8>) -> Option<Seq<Seq<char>>>;

/// What a reader with the default settings hands out for the rows after the
/// header of `data`, one entry per read until the input ends: the fields of a
/// row, or `None` for a row that it rejects.
pub uninterp spec fn csv_rows(data: Seq<u8>) -> Seq<Option<Seq<Seq<char>>>>;

/// The header row of the input that `reader` works on.
pub uninterp spec fn reader_header(reader: csv::Reader<&[u8]>) -> Option<Seq<Seq<char>>>;

/// What `reader` has still to hand out, in order.
pub uninterp spec fn reader_pending(reader: csv::Reader<&[u8]>) -> Seq<Option<Seq<Seq<char>>>>;

/// A row that was accepted under a header that was accepted has as many
/// cells as the header has names.
pub open spec fn same_width(header: Option<Seq<Seq<char>>>, row: Option<Seq<Seq<char>>>) -> bool {
    match (header, row) {
        (Some(names), Some(cells)) => cells.len() == names.len(),
        _ => true,
    }
}

/// What the outcome of a read stands for: the cells of a row, or `None` for
/// a row that was rejected.
pub open spec fn cells_of(outcome: Result<Vec<String>, csv::Error>) -> Option<Seq<Seq<char>>> {
    match outcome {
        Ok(cells) => Some(texts(cells@)),
        Err(_) => None,
    }
}

/// Every entry of `rows` is an accepted row.
pub open spec fn all_accepted(rows: Seq<Option<Seq<Seq<char>>>>) -> bool {
    forall|i: int| 0 <= i < rows.len() ==> (#[trigger] rows[i]) is Some
}

/// The rows of `rows`, where all of them were accepted.
pub open spec fn accepted_rows(rows: Seq<Option<Seq<Seq<char>>>>) -> Seq<Seq<Seq<char>>> {
    Seq::new(rows.len(), |i: int| rows[i].unwrap())
}

/// The header and the data rows of the document `data`, or `None` where the
/// header or one of the rows is rejected.
pub open spec fn parsed_table(data: Seq<u8>) -> Option<(Seq<Seq<char>>, Seq<Seq<Seq<char>>>)> {
    if csv_header(data) is Some && all_accepted(csv_rows(data)) {
        Some((csv_header(data).unwrap(), accepted_rows(csv_rows(data))))
    } else {
        None
    }
}

/// The character sequences of a list of rows.
pub open spec fn row_texts(rows: Seq<Vec<String>>) -> Seq<Seq<Seq<char>>> {
    Seq::new(rows.len(), |i: int| texts(rows[i]@))
}

/// Every row of `rows` has as many cells as `header` has names.
pub open spec fn rectangular(header: Seq<Seq<char>>, rows: Seq<Seq<Seq<char>>>) -> bool {
    forall|i: int| 0 <= i < rows.len() ==> (#[trigger] rows[i]).len() == header.len()
}

/// A header and the data rows under it, all cells as text.
#[derive(Debug)]
pub struct Table {
    pub header: Vec<String>,
    pub rows: Vec<Vec<String>>,
}

impl Table {
    /// The column names.
    pub open spec fn header_view(&self) -> Seq<Seq<char>> {
        texts(self.header@)
    }

    /// The cells, row by row.
    pub open spec fn rows_view(&self) -> Seq<Seq<Seq<char>>> {
        row_texts(self.rows@)
    }
}

/// Calls `csv::Reader::from_reader` on a byte slice. The contract ties the
/// new reader to the bytes: its header and the rows it will hand out are
/// those of `data`. It also states what the reader's default, inflexible
/// mode guarantees: a row that is accepted has as many fields as the first
/// row of the input, which is the header.
#[verifier::external_body]
fn open_reader(data: &[u8]) -> (reader: csv::Reader<&[u8]>)
    ensures
        reader_header(reader) == csv_header(data@),
        reader_pending(reader) == csv_rows(data@),
        forall|i: int|
            0 <= i < reader_pending(reader).len() ==> same_width(
                reader_header(reader),
                #[trigger] reader_pending(reader)[i],
            ),
{
    csv::Reader::from_reader(data)
}

/// Calls `csv::Reader::headers` and copies the fields out. The call fails
/// exactly where the header row is not valid UTF-8, and leaves the rows
/// that the reader has still to hand out as they were.
#[verifier::external_body]
fn read_header(reader: &mut csv::Reader<&[u8]>) -> (header: Result<Vec<String>, csv::Error>)
    ensures
        reader_header(*old(reader)) == cells_of(header),
        reader_header(*final(reader)) == reader_header(*old(reader)),
        reader_pending(*final(reader)) == reader_pending(*old(reader)),
{
    reader.headers().map(|names| names.iter().map(String::from).collect())
}

/// Calls `next` on `csv::Reader::records` and copies the fields out. The
/// call returns `None` exactly where nothing is left; otherwise it takes the
/// first of the pending outcomes away and returns it, a rejected row as the
/// reader's error.
#[verifier::external_body]
fn read_row(reader: &mut csv::Reader<&[u8]>) -> (row: Option<Result<Vec<String>, csv::Error>>)
    ensures
        reader_header(*final(reader)) == reader_header(*old(reader)),
        match row {
            Some(outcome) => reader_pending(*old(reader)).len() > 0 && reader_pending(
                *old(reader),
            )[0] == cells_of(outcome) && reader_pending(*final(reader)) == reader_pending(
                *old(reader),
            ).skip(1),
            None => reader_pending(*old(reader)).len() == 0 && reader_pending(*final(reader))
                == reader_pending(*old(reader)),
        },
{
    reader.records().next().map(
        |outcome| outcome.map(|cells| cells.iter().map(String::from).collect()),
    )
}

/// Parses a CSV document: the first row is the header, every further row is
/// a data row. The result is the table exactly where the header and every
/// row are accepted, and then every row is as wide as the header; otherwise
/// it is the error of the first row that was rejected.
pub fn read_table(input: &[u8]) -> (result: Result<Table, ConvertError>)
    ensures
        match result {
            Ok(table) => parsed_table(input@) == Some((table.header_view(), table.rows_view()))
                && rectangular(table.header_view(), table.rows_view()),
            Err(error) => parsed_table(input@) is None && error is Parse,
        },
{
    let mut reader = open_reader(input);
    let header = match read_header(&mut reader) {
        Ok(names) => names,
        Err(cause) => {
            return Err(ConvertError::Parse(cause));
        },
    };
    let ghost outcomes = csv_rows(input@);
    let mut rows: Vec<Vec<String>> = Vec::new();
    loop
        invariant
            outcomes == csv_rows(input@),
            csv_header(input@) == Some(texts(header@)),
            rows@.len() <= outcomes.len(),
            reader_pending(reader) == outcomes.skip(rows@.len() as int),
            forall|j: int|
                0 <= j < rows@.len() ==> outcomes[j] == Some(#[trigger] row_texts(rows@)[j]),
            forall|j: int|
                0 <= j < outcomes.len() ==> same_width(csv_header(input@), #[trigger] outcomes[j]),
        decreases reader_pending(reader).len(),
    {
        match read_row(&mut reader) {
            None => {
                proof {
                    assert forall|j: int| 0 <= j < outcomes.len() implies (
                    #[trigger] outcomes[j]) == Some(row_texts(rows@)[j]) by {}
                    assert(accepted_rows(outcomes) =~= row_texts(rows@));
                }
                return Ok(Table { header, rows });
            },
            Some(Ok(cells)) => {
                let ghost before = rows@;
                rows.push(cells);
                proof {
                    assert forall|j: int| 0 <= j < rows@.len() implies outcomes[j] == Some(
                        #[trigger] row_texts(rows@)[j],
                    ) by {
                        if j < before.len() {
                            assert(row_texts(rows@)[j] == row_texts(before)[j]);
                        }
                    }
                }
            },
            Some(Err(cause)) => {
                return Err(ConvertError::Parse(cause));
            },
        }
    }
}

} // verus!
