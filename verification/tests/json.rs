use todo_list::json::from_json;
use todo_list::json::to_json;
use todo_list::record::Todo;

fn todo(description: &str, completed: bool) -> Todo {
    Todo { description: String::from(description), completed }
}

#[test]
fn empty_list_writes_bare_brackets() {
    assert_eq!(to_json(&Vec::new()), "[]");
}

#[test]
fn one_record_writes_pretty_object() {
    let list = vec![todo("buy milk", false)];
    assert_eq!(
        to_json(&list),
        "[\n  {\n    \"description\": \"buy milk\",\n    \"completed\": false\n  }\n]"
    );
}

#[test]
fn two_records_write_comma_separated_objects() {
    let list = vec![todo("buy milk", false), todo("walk dog", true)];
    assert_eq!(
        to_json(&list),
        "[\n  {\n    \"description\": \"buy milk\",\n    \"completed\": false\n  },\n  {\n    \"description\": \"walk dog\",\n    \"completed\": true\n  }\n]"
    );
}

#[test]
fn specials_are_escaped_when_written() {
    let list = vec![todo("a\"b\\c\nd\te\rf", false)];
    assert_eq!(
        to_json(&list),
        "[\n  {\n    \"description\": \"a\\\"b\\\\c\\nd\\te\\rf\",\n    \"completed\": false\n  }\n]"
    );
}

#[test]
fn control_characters_are_written_as_unicode_escapes() {
    let list = vec![todo("a\u{7}b\u{1f}c", true)];
    assert_eq!(
        to_json(&list),
        "[\n  {\n    \"description\": \"a\\u0007b\\u001fc\",\n    \"completed\": true\n  }\n]"
    );
}

#[test]
fn empty_array_parses_to_empty_list() {
    let list = from_json("[]").expect("well-formed");
    assert!(list.is_empty());
    let list = from_json("  [\n]\t").expect("well-formed");
    assert!(list.is_empty());
}

#[test]
fn compact_text_parses() {
    let list = from_json(r#"[{"description":"a","completed":true}]"#).expect("well-formed");
    assert_eq!(list, vec![todo("a", true)]);
}

#[test]
fn members_parse_in_either_order() {
    let list = from_json(r#"[{"completed":false,"description":"b"}]"#).expect("well-formed");
    assert_eq!(list, vec![todo("b", false)]);
}

#[test]
fn whitespace_between_tokens_is_ignored() {
    let text = " [ { \"description\" : \"a\" , \"completed\" : true } ,\n\t{ \"completed\" : false , \"description\" : \"b\" } ] ";
    let list = from_json(text).expect("well-formed");
    assert_eq!(list, vec![todo("a", true), todo("b", false)]);
}

#[test]
fn escapes_parse_to_their_characters() {
    let text = r#"[{"description":"a\"b\\c\/d\ne\tf\rg\bh\fi","completed":false}]"#;
    let list = from_json(text).expect("well-formed");
    assert_eq!(list[0].description, "a\"b\\c/d\ne\tf\rg\u{8}h\u{c}i");
}

#[test]
fn unicode_escapes_parse_up_to_ff() {
    let list = from_json(r#"[{"description":"A\u00e9é\u001F","completed":false}]"#)
        .expect("well-formed");
    assert_eq!(list[0].description, "A\u{e9}\u{e9}\u{1f}");
}

#[test]
fn non_ascii_descriptions_pass_through() {
    let list = vec![todo("héllo wörld ✓", false)];
    let back = from_json(&to_json(&list)).expect("well-formed");
    assert_eq!(back, list);
}

#[test]
fn round_trip_preserves_every_record() {
    let list = vec![
        todo("buy milk", false),
        todo("a\"b\\c\nd\te\rf\u{8}g\u{c}h\u{1}i", true),
        todo("", false),
        todo("déjà vu ✓", true),
    ];
    let text = to_json(&list);
    let back = from_json(&text).expect("written text parses");
    assert_eq!(back, list);
}

#[test]
fn round_trip_of_empty_list() {
    let back = from_json(&to_json(&Vec::new())).expect("written text parses");
    assert!(back.is_empty());
}

#[test]
fn malformed_texts_are_rejected() {
    for text in [
        "",
        "[",
        "]",
        "[,]",
        "[{}]",
        "{}",
        "[{]",
        "null",
        "[null]",
        r#"[{"description":"a"}]"#,
        r#"[{"completed":true}]"#,
        r#"[{"description":"a","completed":true}"#,
        r#"[{"description":"a","completed":true},]"#,
        r#"[{"description":"a","completed":true}]x"#,
        r#"x[{"description":"a","completed":true}]"#,
        r#"[{"description":"a","completed":1}]"#,
        r#"[{"description":7,"completed":true}]"#,
        r#"[{"description":"a","completed":true,"extra":true}]"#,
        r#"[{"description":"a","description":"b"}]"#,
        r#"[{"Description":"a","completed":true}]"#,
        r#"[{"description":"a" "completed":true}]"#,
        r#"[{"description":"unterminated,"completed":true}]"#,
        r#"[{"description":"bad\qescape","completed":true}]"#,
        r#"[{"description":"\u0141","completed":true}]"#,
        r#"[{"description":"\uD800","completed":true}]"#,
        r#"[{"description":"\u00","completed":true}]"#,
    ] {
        assert!(from_json(text).is_none(), "accepted: {}", text);
    }
}

#[test]
fn raw_control_character_is_rejected() {
    let text = "[{\"description\":\"a\nb\",\"completed\":true}]";
    assert!(from_json(text).is_none());
}

#[test]
fn serde_json_reads_what_the_library_writes() {
    let list = vec![todo("a\"b\\c\nd\u{3}", true), todo("plain", false)];
    let value: serde_json::Value = serde_json::from_str(&to_json(&list)).expect("valid JSON");
    let items = value.as_array().expect("an array");
    assert_eq!(items.len(), 2);
    assert_eq!(
        items[0].get("description").and_then(|v| v.as_str()),
        Some("a\"b\\c\nd\u{3}")
    );
    assert_eq!(items[0].get("completed").and_then(|v| v.as_bool()), Some(true));
    assert_eq!(items[1].get("description").and_then(|v| v.as_str()), Some("plain"));
    assert_eq!(items[1].get("completed").and_then(|v| v.as_bool()), Some(false));
}

#[test]
fn library_reads_what_serde_json_writes() {
    let mut obj = serde_json::Map::new();
    obj.insert(
        String::from("description"),
        serde_json::Value::String(String::from("fix the door\n")),
    );
    obj.insert(String::from("completed"), serde_json::Value::Bool(true));
    let value = serde_json::Value::Array(vec![serde_json::Value::Object(obj)]);

    let pretty = serde_json::to_string_pretty(&value).expect("serializes");
    let list = from_json(&pretty).expect("pretty text parses");
    assert_eq!(list, vec![todo("fix the door\n", true)]);

    let compact = serde_json::to_string(&value).expect("serializes");
    let list = from_json(&compact).expect("compact text parses");
    assert_eq!(list, vec![todo("fix the door\n", true)]);
}
