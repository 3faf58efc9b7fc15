use graft::decode::decode;
use graft::decode::decode_json;
use graft::decode::decode_yaml;
use graft::decode::json_of;
use graft::value::quote;
use graft::decode::render_markdown;
use graft::decode::unescape_lines;
use graft::Error;
use graft::Format;
use graft::Json;

fn text(s: &str) -> Json {
    Json::String(s.to_string())
}

fn number(n: u64) -> Json {
    Json::Number(serde_json::Number::from(n))
}

fn mapping(entries: Vec<(&str, Json)>) -> Json {
    Json::Object(entries.into_iter().map(|(k, v)| (k.to_string(), v)).collect())
}

#[test]
fn text_is_trimmed() {
    assert_eq!(decode(Format::Text, "  hello main \n\n"), Ok(text("hello main")));
    assert_eq!(decode(Format::Text, "\n"), Ok(text("")));
    assert_eq!(decode(Format::Text, ""), Ok(text("")));
}

#[test]
fn sql_is_kept_as_it_is() {
    assert_eq!(decode(Format::SQL, " select 1;\n\n"), Ok(text(" select 1;\n\n")));
    assert_eq!(decode(Format::SQL, ""), Ok(text("")));
}

#[test]
fn json_is_decoded() {
    assert_eq!(
        decode(Format::JSON, "{\"yo\": \"man\", \"n\": [1, true, null]}\n"),
        Ok(mapping(vec![
            ("n", Json::Array(vec![number(1), Json::Bool(true), Json::Null])),
            ("yo", text("man")),
        ]))
    );
    assert_eq!(decode_json("\"x\""), Ok(text("x")));
}

#[test]
fn json_numbers_are_carried_through() {
    let value = decode_json("[0, -7, 2.5, 18446744073709551615]").unwrap();
    let want = Json::Array(vec![
        Json::Number(serde_json::Number::from(0u64)),
        Json::Number(serde_json::Number::from(-7i64)),
        Json::Number(serde_json::Number::from_f64(2.5).unwrap()),
        Json::Number(serde_json::Number::from(u64::MAX)),
    ]);
    assert_eq!(value, want);
}

#[test]
fn a_json_mapping_keeps_one_entry_for_a_key() {
    assert_eq!(decode_json("{\"b\": 1, \"a\": 2, \"b\": 3}"), Ok(mapping(vec![
        ("a", number(2)),
        ("b", number(3)),
    ])));
}

#[test]
fn bad_json_is_a_decode_error() {
    let error = decode(Format::JSON, "{\"yo\": ").unwrap_err();
    let want = serde_json::from_str::<serde_json::Value>("{\"yo\": ").unwrap_err().to_string();
    assert_eq!(error, Error::Decode(want));
    assert!(matches!(decode(Format::JSON, "\n"), Err(Error::Decode(_))));
}

#[test]
fn yaml_is_decoded() {
    assert_eq!(decode(Format::YAML, "yo: man\n"), Ok(mapping(vec![("yo", text("man"))])));
    assert_eq!(
        decode(Format::YAML, "x: 20\ny: 10\nlist:\n  - a\n  - 2\n"),
        Ok(mapping(vec![
            ("list", Json::Array(vec![text("a"), number(2)])),
            ("x", number(20)),
            ("y", number(10)),
        ]))
    );
    assert_eq!(decode_yaml("just text"), Ok(text("just text")));
}

#[test]
fn a_blank_yaml_body_is_an_empty_mapping() {
    assert_eq!(decode(Format::YAML, ""), Ok(mapping(vec![])));
    assert_eq!(decode(Format::YAML, " \n\t\n"), Ok(mapping(vec![])));
}

#[test]
fn bad_yaml_is_a_decode_error() {
    let error = decode(Format::YAML, "a: [1, 2\n").unwrap_err();
    let want = serde_yaml::from_str::<serde_json::Value>("a: [1, 2\n").unwrap_err().to_string();
    assert_eq!(error, Error::Decode(want));
}

#[test]
fn markdown_is_rendered_to_html() {
    assert_eq!(decode(Format::Markdown, "# hello\n\nworld *now*\n"), Ok(text(
        "<h1>hello</h1>\n<p>world <em>now</em></p>\n"
    )));
    assert_eq!(render_markdown("plain"), "<p>plain</p>\n");
}

#[test]
fn a_slash_that_begins_a_line_is_removed() {
    assert_eq!(unescape_lines("/-- @content[]/faq[] $faq_item\n"), "-- @content[]/faq[] $faq_item\n");
    assert_eq!(unescape_lines("//-- x"), "/-- x");
    assert_eq!(unescape_lines("a/b\n/c\nd /e\n/\n"), "a/b\nc\nd /e\n\n");
    assert_eq!(unescape_lines(""), "");
    assert_eq!(unescape_lines("/"), "");
    assert_eq!(unescape_lines("no slash"), "no slash");
}

#[test]
fn markdown_escapes_a_section_header() {
    assert_eq!(
        decode(Format::Markdown, "/-- @content[]/faq[] $faq_item\n"),
        Ok(text("<p>-- @content[]/faq[] $faq_item</p>\n"))
    );
    assert_eq!(
        decode(Format::Markdown, "//-- @content[]/faq[] $faq_item\n"),
        Ok(text("<p>/-- @content[]/faq[] $faq_item</p>\n"))
    );
}

#[test]
fn a_table_is_rows_of_strings() {
    let row = |cells: Vec<&str>| Json::Array(cells.into_iter().map(text).collect());
    assert_eq!(
        decode(Format::Table, "Header 1,Header 2\nCell Data 1,Cell Data 2\n"),
        Ok(Json::Array(vec![
            row(vec!["Header 1", "Header 2"]),
            row(vec!["Cell Data 1", "Cell Data 2"]),
        ]))
    );
}

#[test]
fn a_value_of_serde_json_becomes_a_value() {
    let mut inner = serde_json::Map::new();
    inner.insert("z".to_string(), serde_json::Value::Null);
    inner.insert("a".to_string(), serde_json::Value::Bool(false));
    let value = serde_json::Value::Array(vec![
        serde_json::Value::String("s".to_string()),
        serde_json::Value::Number(serde_json::Number::from(3u64)),
        serde_json::Value::Object(inner),
        serde_json::Value::Array(vec![]),
    ]);
    assert_eq!(
        json_of(value),
        Json::Array(vec![
            text("s"),
            number(3),
            mapping(vec![("a", Json::Bool(false)), ("z", Json::Null)]),
            Json::Array(vec![]),
        ])
    );
    assert_eq!(json_of(serde_json::Value::Null), Json::Null);
    assert_eq!(json_of(serde_json::Value::Object(serde_json::Map::new())), mapping(vec![]));
}

#[test]
fn a_table_that_the_reader_refuses_is_a_decode_error() {
    assert!(matches!(decode(Format::Table, "a,b\n1\n"), Err(Error::Decode(_))));
    assert!(matches!(decode(Format::Table, "a,b\n1,2\n3,4,5\n"), Err(Error::Decode(_))));
}

#[test]
fn a_value_is_written_out_as_a_line() {
    assert_eq!(Json::Null.write(), "null");
    assert_eq!(Json::Bool(true).write(), "true");
    assert_eq!(Json::Bool(false).write(), "false");
    assert_eq!(number(42).write(), "42");
    assert_eq!(Json::Number(serde_json::Number::from(-7i64)).write(), "-7");
    assert_eq!(Json::Number(serde_json::Number::from_f64(2.5).unwrap()).write(), "2.5");
    assert_eq!(text("a b").write(), "\"a b\"");
    assert_eq!(Json::Array(vec![]).write(), "[]");
    assert_eq!(mapping(vec![]).write(), "{}");
    assert_eq!(Json::Array(vec![number(1)]).write(), "[1]");
    assert_eq!(
        mapping(vec![("k", Json::Array(vec![text("x"), Json::Null, mapping(vec![("z", number(0))])]))])
            .write(),
        "{\"k\":[\"x\",null,{\"z\":0}]}"
    );
}

#[test]
fn quotes_and_backslashes_are_escaped() {
    assert_eq!(quote(""), "\"\"");
    assert_eq!(quote("plain"), "\"plain\"");
    assert_eq!(quote("say \"hi\""), "\"say \\\"hi\\\"\"");
    assert_eq!(quote("a\\b"), "\"a\\\\b\"");
    assert_eq!(text("é/∑").write(), "\"é/∑\"");
}

#[test]
fn what_is_written_out_reads_back_as_json() {
    let texts = [
        "null",
        "[1,-2,3.25,true,false,null]",
        r#"{"a":{"b":[{"c":"d \"e\" \\ f"}]},"g":"h"}"#,
        r#"["é",{"":[]}]"#,
    ];
    for text in texts {
        let value = decode_json(text).unwrap();
        assert_eq!(value.write(), text);
        assert_eq!(decode_json(&value.write()), Ok(value));
    }
}
