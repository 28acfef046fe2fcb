//! The JSON value type: parsing, serialization, and their round trip.

use tysm::json::parse::parse_text;
use tysm::json::Json;
use tysm::strutil::trim_trailing_slashes;

fn obj(entries: Vec<(&str, Json)>) -> Json {
    Json::Obj(entries.into_iter().map(|(k, v)| (k.to_string(), v)).collect())
}

fn s(text: &str) -> Json {
    Json::Str(text.to_string())
}

#[test]
fn serializes_scalars() {
    assert_eq!(Json::Null.to_text(), "null");
    assert_eq!(Json::Bool(true).to_text(), "true");
    assert_eq!(Json::Bool(false).to_text(), "false");
    assert_eq!(Json::num_u64(1000).to_text(), "1000");
    assert_eq!(s("hi").to_text(), "\"hi\"");
}

#[test]
fn serializes_escapes() {
    assert_eq!(s("a\"b").to_text(), "\"a\\\"b\"");
    assert_eq!(s("a\\b").to_text(), "\"a\\\\b\"");
    assert_eq!(s("a\nb").to_text(), "\"a\\nb\"");
    assert_eq!(s("a\tb").to_text(), "\"a\\tb\"");
    assert_eq!(s("a\u{1}b").to_text(), "\"a\\u0001b\"");
}

#[test]
fn serializes_containers() {
    let v = Json::Arr(vec![Json::num_u64(1), Json::num_u64(2)]);
    assert_eq!(v.to_text(), "[1,2]");
    let o = obj(vec![("a", Json::num_u64(1)), ("b", Json::Bool(false))]);
    assert_eq!(o.to_text(), "{\"a\":1,\"b\":false}");
    assert_eq!(Json::Arr(vec![]).to_text(), "[]");
    assert_eq!(obj(vec![]).to_text(), "{}");
}

#[test]
fn parses_scalars() {
    assert_eq!(parse_text("null").unwrap(), Json::Null);
    assert_eq!(parse_text(" true ").unwrap(), Json::Bool(true));
    assert_eq!(parse_text("false").unwrap(), Json::Bool(false));
    assert_eq!(parse_text("-12.5e3").unwrap(), Json::Num("-12.5e3".to_string()));
    assert_eq!(parse_text("\"hi\"").unwrap(), s("hi"));
}

#[test]
fn parses_escapes() {
    assert_eq!(parse_text("\"a\\nb\"").unwrap(), s("a\nb"));
    assert_eq!(parse_text("\"a\\u0041b\"").unwrap(), s("aAb"));
    assert_eq!(parse_text("\"\\uD83D\\uDE00\"").unwrap(), s("\u{1F600}"));
    assert_eq!(parse_text("\"\\\\\\\"\\/\"").unwrap(), s("\\\"/"));
}

#[test]
fn parses_containers() {
    let v = parse_text("[1, 2,3 ]").unwrap();
    assert_eq!(v, Json::Arr(vec![
        Json::Num("1".to_string()),
        Json::Num("2".to_string()),
        Json::Num("3".to_string()),
    ]));
    let o = parse_text("{ \"a\" : 1 , \"b\" : [true] }").unwrap();
    assert_eq!(o.to_text(), "{\"a\":1,\"b\":[true]}");
}

#[test]
fn rejects_malformed_text() {
    assert!(parse_text("").is_err());
    assert!(parse_text("tru").is_err());
    assert!(parse_text("[1,]").is_err());
    assert!(parse_text("{\"a\":}").is_err());
    assert!(parse_text("\"unterminated").is_err());
    assert!(parse_text("1 2").is_err());
    assert!(parse_text("01").is_err());
}

#[test]
fn rejects_duplicate_keys() {
    assert!(parse_text("{\"a\":1,\"a\":2}").is_err());
}

#[test]
fn rejects_lone_surrogates() {
    assert!(parse_text("\"\\uD83D\"").is_err());
    assert!(parse_text("\"\\uDE00\"").is_err());
}

#[test]
fn round_trips_through_text() {
    let texts = vec![
        "{\"name\":\"caf\\u00e9\",\"vals\":[1,-2.5,null,true],\"nested\":{\"x\":\"y\"}}",
        "[[],{},\"\",0]",
    ];
    for t in texts {
        let v = parse_text(t).unwrap();
        let printed = v.to_text();
        let v2 = parse_text(&printed).unwrap();
        assert_eq!(v, v2);
        assert_eq!(printed, v2.to_text());
    }
}

#[test]
fn lookup_finds_members() {
    let o = parse_text("{\"a\":1,\"b\":\"x\"}").unwrap();
    assert_eq!(o.get("b").unwrap(), &s("x"));
    assert!(o.get("c").is_none());
    assert!(Json::Null.get("a").is_none());
}

#[test]
fn trailing_slashes_are_trimmed() {
    assert_eq!(trim_trailing_slashes("/v1/batches/"), "/v1/batches");
    assert_eq!(trim_trailing_slashes("/v1///"), "/v1");
    assert_eq!(trim_trailing_slashes("///"), "");
    assert_eq!(trim_trailing_slashes("/v1"), "/v1");
    assert_eq!(trim_trailing_slashes(""), "");
}
