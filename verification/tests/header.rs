use graft::header::Header;
use graft::Error;
use graft::Exec;
use graft::Format;

fn head(inclusion: Option<&str>, reference: &str, format: Format, process: Option<Exec>) -> Header {
    Header {
        inclusion: inclusion.map(|k| k.to_string()),
        reference: reference.to_string(),
        format,
        process,
    }
}

#[test]
fn an_empty_header_has_the_defaults() {
    assert_eq!(Header::classify(""), Ok(head(None, "ROOT", Format::YAML, None)));
    assert_eq!(Header::classify("--"), Ok(head(None, "ROOT", Format::YAML, None)));
    assert_eq!(Header::initial(), head(None, "ROOT", Format::YAML, None));
}

#[test]
fn tokens_set_their_slots_in_any_order() {
    let want = head(Some("foo"), "main/bar", Format::Text, Some(Exec::Python));
    assert_eq!(Header::classify("-- @main/bar $foo ~text !py"), Ok(head(
        Some("foo"),
        "main/bar",
        Format::Text,
        Some(Exec::Python),
    )));
    assert_eq!(Header::classify(" !python ~text $foo @main/bar"), Ok(want));
}

#[test]
fn the_last_token_of_a_slot_counts() {
    assert_eq!(
        Header::classify("@a @b $x $y ~json ~md !sql !sh"),
        Ok(head(Some("y"), "b", Format::Markdown, Some(Exec::Shell)))
    );
}

#[test]
fn every_format_has_its_tokens() {
    let cases = [
        ("~text", Format::Text),
        ("~md", Format::Markdown),
        ("~markdown", Format::Markdown),
        ("~sql", Format::SQL),
        ("~yml", Format::YAML),
        ("~yaml", Format::YAML),
        ("~json", Format::JSON),
        ("~table", Format::Table),
    ];
    for (token, format) in cases {
        assert_eq!(Header::classify(token), Ok(head(None, "ROOT", format, None)));
    }
}

#[test]
fn every_processor_has_its_tokens() {
    let cases = [
        ("!sql", Exec::SQL),
        ("!sh", Exec::Shell),
        ("!shell", Exec::Shell),
        ("!py", Exec::Python),
        ("!python", Exec::Python),
    ];
    for (token, process) in cases {
        assert_eq!(Header::classify(token), Ok(head(None, "ROOT", Format::YAML, Some(process))));
    }
}

#[test]
fn formats_and_processors_are_read_in_lower_case() {
    assert_eq!(Header::classify("~JSON"), Ok(head(None, "ROOT", Format::JSON, None)));
    assert_eq!(Header::classify("~MarkDown"), Ok(head(None, "ROOT", Format::Markdown, None)));
    assert_eq!(Header::classify("!SQL"), Ok(head(None, "ROOT", Format::YAML, Some(Exec::SQL))));
    assert_eq!(Format::from_tag("~JSON"), None);
    assert_eq!(Format::from_tag("~json"), Some(Format::JSON));
    assert_eq!(Exec::from_tag("!Shell"), None);
    assert_eq!(Exec::from_tag("!shell"), Some(Exec::Shell));
}

#[test]
fn references_and_keys_keep_their_case() {
    assert_eq!(Header::classify("@Main $Foo"), Ok(head(Some("Foo"), "Main", Format::YAML, None)));
}

#[test]
fn an_unknown_format_is_an_error() {
    assert_eq!(Header::classify("-- ~toml"), Err(Error::InvalidFormat("~toml".to_string())));
    assert_eq!(Header::classify("-- ~"), Err(Error::InvalidFormat("~".to_string())));
}

#[test]
fn an_unknown_processor_is_an_error() {
    assert_eq!(Header::classify("-- !ruby"), Err(Error::InvalidProcess("!ruby".to_string())));
}

#[test]
fn any_other_token_is_an_error() {
    assert_eq!(Header::classify("-- #foo"), Err(Error::InvalidInput("#foo".to_string())));
    assert_eq!(Header::classify("-- main"), Err(Error::InvalidInput("main".to_string())));
    assert_eq!(Header::classify("---"), Err(Error::InvalidInput("---".to_string())));
}

#[test]
fn the_first_bad_token_is_the_error() {
    assert_eq!(Header::classify("@a ~nope !nope x"), Err(Error::InvalidFormat("~nope".to_string())));
    assert_eq!(Header::classify("x ~nope"), Err(Error::InvalidInput("x".to_string())));
}

#[test]
fn a_token_may_stop_at_its_first_character() {
    assert_eq!(Header::classify("@ $"), Ok(head(Some(""), "", Format::YAML, None)));
}

#[test]
fn with_token_takes_one_token() {
    let start = Header::initial();
    let next = start.with_token("@main").unwrap();
    assert_eq!(next, head(None, "main", Format::YAML, None));
    let next = next.with_token("~md").unwrap();
    assert_eq!(next, head(None, "main", Format::Markdown, None));
    assert_eq!(next.with_token(""), Err(Error::InvalidInput("".to_string())));
    assert_eq!(Header::initial().with_token("--"), Err(Error::InvalidInput("--".to_string())));
}

#[test]
fn only_a_leading_mark_is_discarded() {
    assert_eq!(Header::classify("-- @a"), Ok(head(None, "a", Format::YAML, None)));
    assert_eq!(Header::classify("  --   @a"), Ok(head(None, "a", Format::YAML, None)));
    assert_eq!(Header::classify("@a --"), Err(Error::InvalidInput("--".to_string())));
    assert_eq!(Header::classify("-- --"), Err(Error::InvalidInput("--".to_string())));
    assert_eq!(Header::classify("-- @a -- @b"), Err(Error::InvalidInput("--".to_string())));
}
