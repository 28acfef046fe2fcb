//! The schema canonicalizer on concrete schemas.

use tysm::json::parse::parse_text;
use tysm::json::Json;
use tysm::schema::OpenAiTransform;

fn canon_text(schema_text: &str) -> String {
    let schema = parse_text(schema_text).unwrap();
    OpenAiTransform.transform(&schema).to_text()
}

#[test]
fn forces_additional_properties_and_required() {
    let out = canon_text(
        "{\"type\":\"object\",\"properties\":{\"b\":{\"type\":\"string\"},\"a\":{\"type\":\"integer\",\"minimum\":0}}}",
    );
    // the full property list, sorted, and the closed-world flag
    assert!(out.contains("\"additionalProperties\":false"));
    assert!(out.contains("\"required\":[\"a\",\"b\"]"));
    // the stripped range keyword is gone, recursively
    assert!(!out.contains("minimum"));
}

#[test]
fn strips_format_and_rewrites_one_of() {
    let out = canon_text(
        "{\"type\":\"string\",\"format\":\"date\",\"oneOf\":[{\"type\":\"string\"},{\"type\":\"null\"}]}",
    );
    assert!(!out.contains("format"));
    assert!(!out.contains("oneOf"));
    assert!(out.contains("anyOf"));
}

#[test]
fn replaces_stale_required() {
    let out = canon_text(
        "{\"properties\":{\"z\":{},\"y\":{}},\"required\":[\"z\",\"bogus\"]}",
    );
    assert!(out.contains("\"required\":[\"y\",\"z\"]"));
    assert!(!out.contains("bogus"));
}

#[test]
fn leaves_bare_references_alone() {
    let out = canon_text("{\"$ref\":\"#/$defs/Name\"}");
    assert!(!out.contains("additionalProperties"));
    assert!(out.contains("$ref"));
}

#[test]
fn recurses_into_subschemas() {
    let schema = parse_text(
        "{\"properties\":{\"kid\":{\"type\":\"object\",\"properties\":{\"x\":{\"maximum\":9}}}},\"$defs\":{\"d\":{\"properties\":{\"q\":{}}}}}",
    )
    .unwrap();
    let out = OpenAiTransform.transform(&schema);
    let text = out.to_text();
    assert!(!text.contains("maximum"));
    // the nested node and the definition both became strict
    let kid = out.get("properties").unwrap().get("kid").unwrap();
    assert_eq!(kid.get("additionalProperties").unwrap(), &Json::Bool(false));
    assert!(kid.to_text().contains("\"required\":[\"x\"]"));
    let d = out.get("$defs").unwrap().get("d").unwrap();
    assert_eq!(d.get("additionalProperties").unwrap(), &Json::Bool(false));
    assert!(d.to_text().contains("\"required\":[\"q\"]"));
}

#[test]
fn minimal_inputs() {
    assert_eq!(canon_text("{}"), "{\"additionalProperties\":false}");
    assert_eq!(canon_text("true"), "true");
}

#[test]
fn is_idempotent_on_concrete_schemas() {
    let texts = vec![
        "{\"type\":\"object\",\"properties\":{\"b\":{},\"a\":{}},\"oneOf\":[{}],\"format\":\"x\"}",
        "{\"$ref\":\"#/x\",\"oneOf\":[{\"properties\":{\"p\":{}}}]}",
        "{\"items\":{\"properties\":{\"n\":{\"minimum\":3}}}}",
        "{}",
    ];
    for t in texts {
        let schema = parse_text(t).unwrap();
        let once = OpenAiTransform.transform(&schema);
        let twice = OpenAiTransform.transform(&once);
        assert_eq!(once, twice);
    }
}

#[test]
fn array_positions_are_visited() {
    let out = canon_text(
        "{\"anyOf\":[{\"properties\":{\"a\":{}}},{\"format\":\"uri\"}],\"allOf\":[{\"minimum\":1}]}",
    );
    assert!(!out.contains("format"));
    assert!(!out.contains("minimum"));
    assert!(out.contains("\"required\":[\"a\"]"));
}

#[test]
fn unrelated_keys_pass_through() {
    let schema = parse_text("{\"title\":\"T\",\"description\":\"d\",\"type\":\"object\"}").unwrap();
    let out = OpenAiTransform.transform(&schema);
    assert!(out.get("title").is_some());
    assert!(out.get("description").is_some());
    assert_eq!(out.get("additionalProperties").unwrap(), &Json::Bool(false));
}
