//! Tables: CSV text as rows of strings.

use vstd::prelude::*;
use crate::error::{Error, ErrorView};
use crate::value::{item_views, lemma_array_view, Json, JsonTree};

verus! {

/// The header of the CSV text `content`: what `headers` gives on a
/// `csv::Reader` of the default configuration, the fields of the first
/// record, or the text of the error.
pub uninterp spec fn csv_header(content: Seq<char>) -> Result<Seq<Seq<char>>, Seq<char>>;

/// The records of the CSV text `content` behind its header: what `records`
/// gives item by item on a `csv::Reader` of the default configuration, for
/// a record its fields, and for a record that the reader refuses the text
/// of the error.
pub uninterp spec fn csv_records(content: Seq<char>) -> Seq<Result<Seq<Seq<char>>, Seq<char>>>;

/// What a record that was read stands for: its fields, or the text of the
/// error.
pub open spec fn record_view(record: Result<Vec<String>, String>) -> Result<
    Seq<Seq<char>>,
    Seq<char>,
> {
    match record {
        Ok(fields) => Ok(fields.deep_view()),
        Err(message) => Err(message@),
    }
}

/// What a list of records that were read stands for.
pub open spec fn record_views(records: Seq<Result<Vec<String>, String>>) -> Seq<
    Result<Seq<Seq<char>>, Seq<char>>,
> {
    Seq::new(records.len(), |i: int| record_view(records[i]))
}

/// `headers` of a `csv::Reader` that `csv::Reader::from_reader` makes over
/// the bytes of `content`. The contract names what it gives (`csv_header`);
/// the record is handed out as the strings of its fields, an error as its
/// text.
#[verifier::external_body]
fn read_header(content: &str) -> (header: Result<Vec<String>, String>)
    ensures
        record_view(header) == csv_header(content@),
{
    let mut reader = csv::Reader::from_reader(content.as_bytes());
    match reader.headers() {
        Ok(record) => Ok(record.iter().map(String::from).collect()),
        Err(error) => Err(error.to_string()),
    }
}

/// `records` of a `csv::Reader` that `csv::Reader::from_reader` makes over
/// the bytes of `content`, run to its end. The contract names what it gives
/// (`csv_records`); each record is handed out as the strings of its fields,
/// each error as its text.
#[verifier::external_body]
fn read_records(content: &str) -> (records: Vec<Result<Vec<String>, String>>)
    ensures
        record_views(records@) == csv_records(content@),
{
    let mut reader = csv::Reader::from_reader(content.as_bytes());
    reader.records().map(
        |item| match item {
            Ok(record) => Ok(record.iter().map(String::from).collect()),
            Err(error) => Err(error.to_string()),
        },
    ).collect()
}

/// The row that a record's fields make: an array of strings.
pub open spec fn row_tree(fields: Seq<Seq<char>>) -> JsonTree {
    JsonTree::Array(Seq::new(fields.len(), |i: int| JsonTree::String(fields[i])))
}

/// The rows of the records, in order; or the error of the first record that
/// the reader refused.
pub open spec fn record_rows(records: Seq<Result<Seq<Seq<char>>, Seq<char>>>) -> Result<
    Seq<JsonTree>,
    Seq<char>,
>
    decreases records.len(),
{
    if records.len() == 0 {
        Ok(Seq::empty())
    } else {
        match record_rows(records.drop_last()) {
            Err(message) => Err(message),
            Ok(before) => match records.last() {
                Ok(fields) => Ok(before.push(row_tree(fields))),
                Err(message) => Err(message),
            },
        }
    }
}

/// The rows of a table: the header row, then the rows of the records. Where
/// the reader refused the header or a record, the table is a `Decode` error
/// with the reader's message: that of the header, else that of the first
/// record refused.
pub open spec fn table_trees(
    header: Result<Seq<Seq<char>>, Seq<char>>,
    records: Seq<Result<Seq<Seq<char>>, Seq<char>>>,
) -> Result<Seq<JsonTree>, ErrorView> {
    match header {
        Err(message) => Err(ErrorView::Decode(message)),
        Ok(fields) => match record_rows(records) {
            Err(message) => Err(ErrorView::Decode(message)),
            Ok(rows) => Ok(seq![row_tree(fields)] + rows),
        },
    }
}

/// The outcome of reading a table, from what was returned.
pub open spec fn rows_outcome(r: Result<Vec<Json>, Error>) -> Result<Seq<JsonTree>, ErrorView> {
    match r {
        Ok(rows) => Ok(item_views(rows@)),
        Err(error) => Err(error@),
    }
}

/// Once a record is refused, the records after it change nothing.
pub proof fn lemma_refusal_stays(records: Seq<Result<Seq<Seq<char>>, Seq<char>>>, m: int, n: int)
    requires
        0 <= m <= n <= records.len(),
        record_rows(records.take(m)) is Err,
    ensures
        record_rows(records.take(n)) == record_rows(records.take(m)),
    decreases n - m,
{
    if m < n {
        lemma_refusal_stays(records, m, n - 1);
        assert(records.take(n).drop_last() =~= records.take(n - 1));
    }
}

/// The array of strings that `fields` make.
fn row_of(fields: &Vec<String>) -> (row: Json)
    ensures
        row@ == row_tree(fields.deep_view()),
{
    let mut cells: Vec<Json> = Vec::new();
    let mut i: usize = 0;
    while i < fields.len()
        invariant
            i <= fields.len(),
            cells.len() == i,
            forall|j: int| 0 <= j < i ==> cells@[j]@ == JsonTree::String(fields@[j]@),
        decreases fields.len() - i,
    {
        cells.push(Json::String(fields[i].clone()));
        i += 1;
    }
    proof {
        lemma_array_view(cells);
        assert(item_views(cells@) =~= row_tree(fields.deep_view())->Array_0);
    }
    Json::Array(cells)
}

/// The rows of a table, from what was read of it: `header` is the first
/// record, `records` holds the records after it, and each is the fields of
/// the record or the message with which the reader refused it. A table with
/// a refusal in it is a `Decode` error: that of the header, else that of the
/// first record refused.
pub fn table_rows(
    header: &Result<Vec<String>, String>,
    records: &Vec<Result<Vec<String>, String>>,
) -> (r: Result<Vec<Json>, Error>)
    ensures
        rows_outcome(r) == table_trees(record_view(*header), record_views(records@)),
{
    let ghost all = record_views(records@);
    let mut rows: Vec<Json> = Vec::new();
    match header {
        Ok(fields) => {
            rows.push(row_of(fields));
        },
        Err(message) => {
            return Err(Error::Decode(message.clone()));
        },
    }
    let ghost first = item_views(rows@);
    assert(first =~= seq![row_tree(record_view(*header)->Ok_0)]);
    let mut i: usize = 0;
    assert(all.take(0) =~= Seq::empty());
    while i < records.len()
        invariant
            i <= records.len(),
            all == record_views(records@),
            record_view(*header) is Ok,
            record_rows(all.take(i as int)) matches Ok(done) && item_views(rows@) == first + done,
        decreases records.len() - i,
    {
        let ghost before = item_views(rows@);
        proof {
            assert(all.take(i + 1).drop_last() =~= all.take(i as int));
            assert(all.take(i + 1).last() == record_view(records@[i as int]));
        }
        match &records[i] {
            Ok(fields) => {
                let row = row_of(fields);
                rows.push(row);
                proof {
                    assert(item_views(rows@) =~= before.push(row@));
                    let done = record_rows(all.take(i as int))->Ok_0;
                    assert(before.push(row@) =~= first + done.push(row@));
                }
            },
            Err(message) => {
                proof {
                    assert(record_rows(all.take(i + 1)) == Err::<Seq<JsonTree>, Seq<char>>(
                        message@,
                    ));
                    lemma_refusal_stays(all, i + 1, all.len() as int);
                    assert(all.take(all.len() as int) =~= all);
                }
                return Err(Error::Decode(message.clone()));
            },
        }
        i += 1;
    }
    proof {
        assert(all.take(all.len() as int) =~= all);
    }
    Ok(rows)
}

/// The rows of the CSV table `content`, each an array of strings: the header
/// row first, then a row for every record. A table that the `csv` crate
/// refuses in part, as it does a record of another number of fields than
/// the header, is a `Decode` error with the reader's message.
pub fn csv_to_list_list_string(content: &str) -> (r: Result<Vec<Json>, Error>)
    ensures
        rows_outcome(r) == table_trees(csv_header(content@), csv_records(content@)),
{
    let header = read_header(content);
    let records = read_records(content);
    table_rows(&header, &records)
}

} // verus!
