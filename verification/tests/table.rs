use graft::table_format::csv_to_list_list_string;
use graft::table_format::table_rows;
use graft::Error;
use graft::Json;

fn row(cells: Vec<&str>) -> Json {
    Json::Array(cells.into_iter().map(|c| Json::String(c.to_string())).collect())
}

fn record(cells: Vec<&str>) -> Result<Vec<String>, String> {
    Ok(cells.into_iter().map(|c| c.to_string()).collect())
}

fn refused(message: &str) -> Result<Vec<String>, String> {
    Err(message.to_string())
}

fn first_error_of(content: &str) -> String {
    let mut reader = csv::Reader::from_reader(content.as_bytes());
    reader.records().find_map(|item| item.err()).unwrap().to_string()
}

#[test]
fn the_header_row_comes_first() {
    assert_eq!(
        csv_to_list_list_string("Header 1,Header 2\nCell Data 1,Cell Data 2\nCell Data 3,Cell Data 4\n"),
        Ok(vec![
            row(vec!["Header 1", "Header 2"]),
            row(vec!["Cell Data 1", "Cell Data 2"]),
            row(vec!["Cell Data 3", "Cell Data 4"]),
        ])
    );
}

#[test]
fn quoted_cells_are_unquoted() {
    assert_eq!(
        csv_to_list_list_string("a,\"b,c\"\n\"x \"\"y\"\"\",z\n"),
        Ok(vec![row(vec!["a", "b,c"]), row(vec!["x \"y\"", "z"])])
    );
}

#[test]
fn a_record_of_another_length_is_a_decode_error() {
    let content = "a,b\n1\n";
    let got = csv_to_list_list_string(content);
    assert_eq!(got, Err(Error::Decode(first_error_of(content))));
    let message = got.unwrap_err().message();
    assert!(message.contains("found record with 1 fields"), "{}", message);
}

#[test]
fn the_first_refused_record_is_the_error() {
    let content = "a,b\n1,2\n3\n4,5,6\n7,8\n";
    let got = csv_to_list_list_string(content).unwrap_err();
    assert_eq!(got, Error::Decode(first_error_of(content)));
    assert!(got.message().contains("found record with 1 fields"));
}

#[test]
fn an_empty_table_has_an_empty_header_row() {
    assert_eq!(csv_to_list_list_string(""), Ok(vec![row(vec![])]));
}

#[test]
fn a_header_alone_is_one_row() {
    assert_eq!(csv_to_list_list_string("only,header"), Ok(vec![row(vec!["only", "header"])]));
}

#[test]
fn rows_from_what_was_read() {
    assert_eq!(
        table_rows(&record(vec!["h"]), &vec![record(vec!["1"]), record(vec!["2", "3"])]),
        Ok(vec![row(vec!["h"]), row(vec!["1"]), row(vec!["2", "3"])])
    );
    assert_eq!(table_rows(&record(vec![]), &vec![]), Ok(vec![row(vec![])]));
}

#[test]
fn a_refusal_among_what_was_read_is_the_error() {
    assert_eq!(
        table_rows(&record(vec!["h"]), &vec![refused("bad record")]),
        Err(Error::Decode("bad record".to_string()))
    );
    assert_eq!(
        table_rows(
            &record(vec!["h"]),
            &vec![record(vec!["1"]), refused("first"), record(vec!["2"]), refused("second")]
        ),
        Err(Error::Decode("first".to_string()))
    );
    assert_eq!(
        table_rows(&refused("bad header"), &vec![record(vec!["1"]), refused("bad record")]),
        Err(Error::Decode("bad header".to_string()))
    );
}
