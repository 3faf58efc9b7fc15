use graft::Error;
use graft::Json;

#[test]
fn every_error_has_its_line() {
    assert_eq!(Error::InvalidProcess("!ruby".to_string()).message(), "invalid process: !ruby");
    assert_eq!(Error::InvalidFormat("~toml".to_string()).message(), "invalid format: ~toml");
    assert_eq!(Error::InvalidInput("#x".to_string()).message(), "invalid input: #x");
    assert_eq!(Error::Decode("expected value".to_string()).message(), "expected value");
    assert_eq!(Error::RefNotString(Json::Null).message(), "$ref is not a string: null");
    assert_eq!(Error::NotFound("ROOT".to_string()).message(), "not found: ROOT");
    assert_eq!(Error::Unresolved("main/bar".to_string()).message(), "'main/bar' not found");
    assert_eq!(Error::TooDeep.message(), "sub-grafts are nested too deep");
}

#[test]
fn a_reference_that_is_no_string_is_shown() {
    let seven = Json::Number(serde_json::Number::from(7u64));
    assert_eq!(Error::RefNotString(seven.clone()).message(), "$ref is not a string: 7");
    assert_eq!(Error::RefNotString(Json::Bool(true)).message(), "$ref is not a string: true");
    let value = Json::Object(vec![
        ("path".to_string(), Json::String("main".to_string())),
        ("n".to_string(), Json::Array(vec![seven, Json::Null])),
    ]);
    assert_eq!(
        Error::RefNotString(value).message(),
        "$ref is not a string: {\"path\":\"main\",\"n\":[7,null]}"
    );
    let mut ctx = graft::StaticContext::new("odd.json", r#"{"x":{"$ref":[1.5,"a"]}}"#);
    assert_eq!(
        graft::convert("-- $odd", &mut ctx).unwrap_err().message(),
        "$ref is not a string: [1.5,\"a\"]"
    );
}
