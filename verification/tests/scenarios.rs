use graft::CachedContext;
use graft::Context;
use graft::Error;
use graft::Json;
use graft::NotFound;
use graft::StaticContext;

const FOO: &str = r#"{"hello":"world","main":{"$ref":"main","default":"yo"},"obj":{"list":{"$ref":"children[]"}},"main2":{"$ref":"main2","default":"yo2"}}"#;

const HFLOAT: &str = r#"{"id":{"$ref":"id"},"floaters":{"$ref":"floaters[]"}}"#;

fn is(value: &Json, want: &str) -> bool {
    fn plain(value: &Json) -> serde_json::Value {
        match value {
            Json::Null => serde_json::Value::Null,
            Json::Bool(b) => serde_json::Value::Bool(*b),
            Json::Number(n) => serde_json::Value::Number(n.clone()),
            Json::String(s) => serde_json::Value::String(s.clone()),
            Json::Array(items) => serde_json::Value::Array(items.iter().map(plain).collect()),
            Json::Object(entries) => serde_json::Value::Object(
                entries.iter().map(|(key, item)| (key.clone(), plain(item))).collect(),
            ),
        }
    }
    plain(value) == serde_json::from_str::<serde_json::Value>(want).unwrap()
}

fn empty() -> StaticContext {
    StaticContext::new("", "")
}

fn with_foo() -> StaticContext {
    StaticContext::new("foo.json", FOO)
}

#[test]
fn a_json_section_at_root() {
    let got = graft::convert("-- @ROOT ~json\n{\"yo\":\"man\"}\n", &mut empty()).unwrap();
    assert!(is(&got, r#"{"yo":"man"}"#));
}

#[test]
fn a_section_is_yaml_by_default() {
    let got = graft::convert("-- @ROOT\nyo: man\n", &mut empty()).unwrap();
    assert!(is(&got, r#"{"yo":"man"}"#));
}

#[test]
fn a_template_alone_takes_its_defaults() {
    let got = graft::convert("-- @ROOT $foo", &mut with_foo()).unwrap();
    assert!(is(&got, r#"{"hello":"world","main":"yo","obj":{"list":[]},"main2":"yo2"}"#));
}

#[test]
fn a_section_fills_a_marker() {
    let got = graft::convert("-- $foo\n-- @main ~text\nhello main\n", &mut with_foo()).unwrap();
    assert!(is(&got, r#"{"hello":"world","main":"hello main","obj":{"list":[]},"main2":"yo2"}"#));
}

#[test]
fn a_text_resource_fills_a_marker() {
    let mut ctx = with_foo().with("title.txt", "this is the title");
    let got = graft::convert("-- $foo\n-- @main $title ~text\n", &mut ctx).unwrap();
    assert!(is(
        &got,
        r#"{"hello":"world","main":"this is the title","obj":{"list":[]},"main2":"yo2"}"#
    ));
}

#[test]
fn nested_lists_follow_the_order_of_their_sections() {
    let mut ctx = StaticContext::new("hfloat.json", HFLOAT);
    let got = graft::convert(
        "-- $hfloat\nid: top\n-- @floaters[] $hfloat\nid: first child\n-- @floaters[]/floaters[] $hfloat\nid: first first child\n-- @floaters[] $hfloat\nid: second child\n-- @floaters[]/floaters[] $hfloat\nid: second first child\n-- @floaters[]/floaters[] $hfloat\nid: second second child\n",
        &mut ctx,
    )
    .unwrap();
    assert!(is(
        &got,
        r#"{"id":"top","floaters":[
            {"id":"first child","floaters":[{"id":"first first child","floaters":[]}]},
            {"id":"second child","floaters":[
                {"id":"second first child","floaters":[]},
                {"id":"second second child","floaters":[]}]}]}"#
    ));
}

#[test]
fn markdown_escapes_a_header_line() {
    let got = graft::convert("-- @ROOT ~md\n/-- @content[]/faq[] $faq_item\n", &mut empty()).unwrap();
    assert_eq!(got, Json::String("<p>-- @content[]/faq[] $faq_item</p>\n".to_string()));
}

#[test]
fn a_table_is_rows_with_the_header_first() {
    let got = graft::convert(
        "-- @ROOT ~table\nHeader 1,Header 2\nCell Data 1,Cell Data 2\n",
        &mut empty(),
    )
    .unwrap();
    assert!(is(&got, r#"[["Header 1","Header 2"],["Cell Data 1","Cell Data 2"]]"#));
}

#[test]
fn a_document_without_root_is_not_found() {
    assert_eq!(graft::convert("", &mut empty()), Err(Error::NotFound("ROOT".to_string())));
    assert_eq!(
        graft::convert("-- @main ~text\nx\n", &mut empty()),
        Err(Error::NotFound("ROOT".to_string()))
    );
}

#[test]
fn errors_of_parsing_come_through() {
    assert_eq!(
        graft::convert("-- @ROOT #foo\nmain: x\n", &mut empty()),
        Err(Error::InvalidInput("#foo".to_string()))
    );
    assert_eq!(
        graft::convert("-- @ROOT ~xml\n", &mut empty()),
        Err(Error::InvalidFormat("~xml".to_string()))
    );
    assert_eq!(
        graft::convert("-- @ROOT !lua\n", &mut empty()),
        Err(Error::InvalidProcess("!lua".to_string()))
    );
    assert!(matches!(graft::convert("-- @ROOT ~json\n{\n", &mut empty()), Err(Error::Decode(_))));
}

#[test]
fn errors_of_evaluation_come_through() {
    let mut ctx = StaticContext::new("bar.json", r#"{"bar":{"$ref":"bar"}}"#)
        .with("odd.json", r#"{"x":{"$ref":7}}"#);
    assert_eq!(graft::convert("-- $bar", &mut ctx), Err(Error::Unresolved("bar".to_string())));
    assert_eq!(
        graft::convert("-- $odd", &mut ctx),
        Err(Error::RefNotString(Json::Number(serde_json::Number::from(7u64))))
    );
}

#[test]
fn a_reference_at_a_sentinel_section_ends_the_scan() {
    let mut ctx = with_foo();
    let got = graft::convert("-- $foo\n-- @END\n-- @main ~text\nhidden\n", &mut ctx).unwrap();
    assert!(is(&got, r#"{"hello":"world","main":"yo","obj":{"list":[]},"main2":"yo2"}"#));
}

#[test]
fn a_trailing_line_break_changes_nothing_for_these() {
    let documents = [
        "",
        "-- @ROOT ~text\nhello",
        "-- @ROOT",
        "-- @ROOT $foo",
        "-- @ROOT ~json\n{\"yo\": \"man\"}",
        "-- @ROOT\nyo: man",
        "-- @ROOT ~md\n# title",
        "-- @ROOT ~table\na,b\n1,2",
        "-- $foo\n-- @main ~text\nhello main",
        "-- @ROOT ~nope",
    ];
    for text in documents {
        let short = graft::convert(text, &mut with_foo());
        let long = graft::convert(&format!("{}\n", text), &mut with_foo());
        assert_eq!(short, long, "{:?}", text);
    }
}

#[test]
fn a_trailing_line_break_stays_in_sql() {
    let short = graft::convert("-- @ROOT ~sql\nselect 1", &mut empty());
    let long = graft::convert("-- @ROOT ~sql\nselect 1\n", &mut empty());
    assert_eq!(short, Ok(Json::String("select 1\n".to_string())));
    assert_eq!(long, Ok(Json::String("select 1\n\n".to_string())));
}

#[test]
fn a_template_brought_in_is_as_a_template_written_out() {
    let brought = graft::convert("-- @ROOT $foo\n-- @main ~text\nhello main\n", &mut with_foo());
    let written = graft::convert(
        &format!("-- @ROOT ~json\n{}\n-- @main ~text\nhello main\n", FOO),
        &mut empty(),
    );
    assert_eq!(brought, written);
    assert!(brought.is_ok());

    let mut ctx = with_foo().with("bar.json", r#"{"bar":{"$ref":"bar","default":"ho"}}"#);
    let brought = graft::convert("-- $foo\n-- @main $bar\n-- @main/bar ~text\ndeep\n", &mut ctx);
    let written = graft::convert(
        &format!(
            "-- ~json\n{}\n-- @main ~json\n{}\n-- @main/bar ~text\ndeep\n",
            FOO, r#"{"bar":{"$ref":"bar","default":"ho"}}"#
        ),
        &mut empty(),
    );
    assert_eq!(brought, written);
    assert!(brought.is_ok());
}

#[test]
fn a_sub_graft_brought_in_is_as_its_sections_written_out() {
    let mut ctx = with_foo()
        .with("bar.json", r#"{"bar":{"$ref":"bar"}}"#)
        .with("foo2.graft", "-- $foo\n-- @main $bar\n");
    let brought = graft::convert("-- $foo2\n-- @main/bar\nx: 20\ny: 10\n", &mut ctx);
    let written = graft::convert("-- $foo\n-- @main $bar\n-- @main/bar\nx: 20\ny: 10\n", &mut ctx);
    assert_eq!(brought, written);
    assert!(brought.is_ok());
}

#[test]
fn an_override_counts_before_a_later_section() {
    let mut ctx = with_foo();
    let got = graft::convert("-- $foo\nmain: from the body\n-- @main ~text\nfrom a section\n", &mut ctx)
        .unwrap();
    assert!(is(&got, r#"{"hello":"world","main":"from the body","obj":{"list":[]},"main2":"yo2"}"#));
}

struct Fading {
    holds: StaticContext,
    left: usize,
}

impl Context for Fading {
    fn lookup(&mut self, key: &str) -> Result<String, NotFound> {
        if self.left == 0 {
            return Err(NotFound);
        }
        self.left -= 1;
        self.holds.lookup(key)
    }
}

#[test]
fn a_cache_changes_no_value() {
    let documents = [
        "-- @ROOT $foo",
        "-- $foo\n-- @main $title ~text\n",
        "-- $foo\n-- @main $bar\n-- @main/bar\nx: 20\n-- @main2 $bar\n-- @main2/bar ~text\nb\n",
        "-- $foo2\n-- @main/bar ~text\nx\n",
        "-- $missing\n",
    ];
    let store = || {
        with_foo()
            .with("title.txt", "this is the title")
            .with("bar.json", r#"{"bar":{"$ref":"bar"}}"#)
            .with("foo2.graft", "-- $foo\n-- @main $bar\n")
    };
    for text in documents {
        let direct = graft::convert(text, &mut store());
        let mut cached = CachedContext::new(Box::new(store()));
        assert_eq!(graft::convert(text, &mut cached), direct, "{:?}", text);
        assert_eq!(graft::convert(text, &mut cached), direct, "{:?}", text);
    }
}

#[test]
fn a_cache_keeps_what_a_store_answered_first() {
    let fading = Fading { holds: with_foo(), left: 1 };
    let mut cached = CachedContext::new(Box::new(fading));
    let first = graft::convert("-- @ROOT $foo", &mut cached).unwrap();
    assert!(is(&first, r#"{"hello":"world","main":"yo","obj":{"list":[]},"main2":"yo2"}"#));
    let again = graft::convert("-- @ROOT $foo", &mut cached).unwrap();
    assert_eq!(first, again);
    let mut fading = Fading { holds: with_foo(), left: 1 };
    assert!(graft::convert("-- @ROOT $foo", &mut fading).is_ok());
    assert_eq!(graft::convert("-- @ROOT $foo", &mut fading), Ok(Json::Object(vec![])));
}
