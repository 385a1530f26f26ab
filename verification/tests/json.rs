use ollama_stream::json::{parse_document, JsonValue};

fn member<'a>(doc: &'a JsonValue, key: &str) -> &'a JsonValue {
    doc.member(key).unwrap()
}

#[test]
fn scalars_are_read() {
    assert!(matches!(parse_document("null"), Some(JsonValue::Null)));
    assert!(matches!(parse_document("true"), Some(JsonValue::Bool(true))));
    assert!(matches!(parse_document("false"), Some(JsonValue::Bool(false))));
    assert!(matches!(parse_document("\"hi\""), Some(JsonValue::Text(text)) if text == "hi"));
    assert!(matches!(parse_document("  7 "), Some(JsonValue::Number(Some(7)))));
}

#[test]
fn numbers_keep_their_value_where_it_is_an_unsigned_integer() {
    assert!(matches!(parse_document("0"), Some(JsonValue::Number(Some(0)))));
    assert!(matches!(
        parse_document("18446744073709551615"),
        Some(JsonValue::Number(Some(u64::MAX)))
    ));
    assert!(matches!(parse_document("-1"), Some(JsonValue::Number(None))));
    assert!(matches!(parse_document("1.0"), Some(JsonValue::Number(None))));
    assert!(matches!(parse_document("1e3"), Some(JsonValue::Number(None))));
    assert!(matches!(parse_document("18446744073709551616"), Some(JsonValue::Number(None))));
}

#[test]
fn what_is_not_json_is_not_read() {
    assert!(parse_document("").is_none());
    assert!(parse_document("not json at all").is_none());
    assert!(parse_document("{").is_none());
    assert!(parse_document("{\"a\":1} trailing").is_none());
    assert!(parse_document("{'a':1}").is_none());
    assert!(parse_document("{\"a\":1}{\"b\":2}").is_none());
}

#[test]
fn arrays_keep_their_items_in_order() {
    let doc = parse_document("[1, \"two\", [true], {}]").unwrap();
    match doc {
        JsonValue::Array(items) => {
            assert_eq!(items.len(), 4);
            assert!(matches!(items[0], JsonValue::Number(Some(1))));
            assert!(matches!(&items[1], JsonValue::Text(text) if text == "two"));
            assert!(
                matches!(&items[2], JsonValue::Array(inner) if matches!(inner[..], [JsonValue::Bool(true)]))
            );
            assert!(matches!(&items[3], JsonValue::Object(members) if members.is_empty()));
        }
        _ => panic!("an array was expected"),
    }
}

#[test]
fn objects_are_read_with_their_members() {
    let doc = parse_document("{\"message\":{\"content\":\"hi\"},\"done\":false,\"n\":3}").unwrap();
    assert!(matches!(member(&doc, "done"), JsonValue::Bool(false)));
    assert!(matches!(member(&doc, "n"), JsonValue::Number(Some(3))));
    let message = member(&doc, "message");
    assert!(matches!(member(message, "content"), JsonValue::Text(text) if text == "hi"));
    assert!(doc.member("content").is_none());
    assert!(doc.member("Done").is_none());
    assert!(doc.member("").is_none());
}

#[test]
fn member_of_what_is_no_object_is_none() {
    assert!(JsonValue::Null.member("a").is_none());
    assert!(JsonValue::Text("a".to_string()).member("a").is_none());
    assert!(JsonValue::Array(vec![JsonValue::Null]).member("0").is_none());
}

#[test]
fn member_finds_the_first_of_equal_names() {
    let doc = JsonValue::Object(vec![
        ("a".to_string(), JsonValue::Bool(true)),
        ("b".to_string(), JsonValue::Null),
        ("a".to_string(), JsonValue::Bool(false)),
    ]);
    assert!(matches!(doc.member("a"), Some(JsonValue::Bool(true))));
    assert!(matches!(doc.member("b"), Some(JsonValue::Null)));
    assert!(doc.member("c").is_none());
}

#[test]
fn field_counts_null_as_absent() {
    let doc = parse_document("{\"a\":null,\"b\":0}").unwrap();
    assert!(matches!(doc.member("a"), Some(JsonValue::Null)));
    assert!(doc.field("a").is_none());
    assert!(matches!(doc.field("b"), Some(JsonValue::Number(Some(0)))));
    assert!(doc.field("c").is_none());
}

#[test]
fn escapes_in_strings_are_resolved() {
    let doc = parse_document("{\"k\\u0065y\":\"a\\nb\\u00e9\"}").unwrap();
    assert!(matches!(member(&doc, "key"), JsonValue::Text(text) if text == "a\nbé"));
}

#[test]
fn a_repeated_name_keeps_its_last_value() {
    let doc = parse_document("{\"a\":1,\"a\":2}").unwrap();
    assert!(matches!(member(&doc, "a"), JsonValue::Number(Some(2))));
}
