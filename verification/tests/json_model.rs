use backend::json::{JsonMember, JsonNumber, JsonValue};
use backend::text::insert_distinct;

fn obj(members: Vec<(&str, JsonValue)>) -> JsonValue {
    JsonValue::Object(
        members.into_iter().map(|(k, v)| JsonMember { key: k.to_string(), value: v }).collect(),
    )
}

#[test]
fn get_finds_members_of_objects_only() {
    let o = obj(vec![("a", JsonValue::Bool(true)), ("b", JsonValue::Null)]);
    assert!(matches!(o.get("a"), Some(JsonValue::Bool(true))));
    assert!(matches!(o.get("b"), Some(JsonValue::Null)));
    assert!(o.get("c").is_none());
    assert!(JsonValue::Array(vec![]).get("a").is_none());
    assert!(JsonValue::String("a".into()).get("a").is_none());
}

#[test]
fn typed_lookups() {
    let o = obj(vec![
        ("s", JsonValue::String("txt".into())),
        ("n", JsonValue::Number(JsonNumber { as_u64: Some(7), text: "7".into() })),
        ("f", JsonValue::Number(JsonNumber { as_u64: None, text: "-1.5".into() })),
        ("arr", JsonValue::Array(vec![JsonValue::Null])),
    ]);
    assert_eq!(o.str_field("s").map(|s| s.as_str()), Some("txt"));
    assert!(o.str_field("n").is_none());
    assert_eq!(o.u64_field("n"), Some(7));
    assert_eq!(o.u64_field("f"), None);
    assert_eq!(o.u64_field("s"), None);
    assert_eq!(o.array_field("arr").map(|a| a.len()), Some(1));
    assert!(o.array_field("s").is_none());
}

#[test]
fn take_member_removes_the_first_match() {
    let o = obj(vec![("e", JsonValue::Bool(false)), ("e", JsonValue::Bool(true))]);
    assert!(matches!(o.take_member("e"), Some(JsonValue::Bool(false))));
    assert!(obj(vec![]).take_member("e").is_none());
}

#[test]
fn insert_distinct_keeps_each_text_once() {
    let mut v: Vec<String> = Vec::new();
    insert_distinct(&mut v, "a".into());
    insert_distinct(&mut v, "b".into());
    insert_distinct(&mut v, "a".into());
    assert_eq!(v, vec!["a".to_string(), "b".to_string()]);
}
