use qqbot::bot::{analyze_raw_post_body, BotAction, PostError};
use qqbot::json::{read_json_object, read_target_groups, JsonField};
use qqbot::produce::{read_pet_entry, PetDataError};
use qqbot::tally::{read_count_table, CountMap};

#[test]
fn count_tables_read_from_text() {
    let t = read_count_table("").unwrap();
    assert!(t.entries().is_empty());
    let t = read_count_table("{\"12\": 3, \"7\": -1}").unwrap();
    assert_eq!(t.get(&"12".to_string()), Some(3));
    assert_eq!(t.get(&"7".to_string()), Some(-1));
    assert!(read_count_table("[1, 2]").is_none());
    assert!(read_count_table("{\"a\": \"b\"}").is_none());
    assert!(read_count_table("not json").is_none());
}

#[test]
fn count_tables_read_back_what_was_written() {
    let mut t = CountMap::new();
    t.insert("42".to_string(), 5);
    t.insert("名字\"q".to_string(), i64::MIN);
    let text = t.to_json();
    let back = read_count_table(&text).unwrap();
    let mut a = t.entries();
    let mut b = back.entries();
    a.sort();
    b.sort();
    assert_eq!(a, b);
    assert_eq!(CountMap::new().to_json(), "{}");
}

#[test]
fn json_objects_tell_field_kinds_apart() {
    let o = read_json_object(br#"{"s": "x", "n": 5, "big": 18446744073709551615, "l": ["a", "b"], "m": ["a", 1], "b": true}"#).unwrap();
    assert!(matches!(o.get("s"), Some(JsonField::Text(s)) if s == "x"));
    assert!(matches!(o.get("n"), Some(JsonField::Integer(5))));
    assert!(matches!(o.get("big"), Some(JsonField::Other)));
    assert!(matches!(o.get("l"), Some(JsonField::TextList(v)) if v == &vec!["a".to_string(), "b".to_string()]));
    assert!(matches!(o.get("m"), Some(JsonField::Other)));
    assert!(matches!(o.get("b"), Some(JsonField::Other)));
    assert!(o.get("missing").is_none());
    assert!(read_json_object(b"[1]").is_none());
}

#[test]
fn raw_events_are_read_and_decided() {
    let body = br#"{"post_type":"message","message_type":"group","group_id":10,"user_id":20,"raw_message":"!!ping"}"#;
    let m = analyze_raw_post_body(body).unwrap().unwrap();
    assert_eq!((m.group_id, m.user_id), (10, 20));
    assert!(matches!(m.action, BotAction::Reply(ref s) if s == "pong!!"));
    let private = br#"{"post_type":"message","message_type":"private","user_id":20,"raw_message":"hi"}"#;
    assert!(analyze_raw_post_body(private).unwrap().is_none());
    let meta = br#"{"post_type":"meta_event"}"#;
    assert!(analyze_raw_post_body(meta).unwrap().is_none());
    let no_kind = br#"{"post_type":"message"}"#;
    assert_eq!(analyze_raw_post_body(no_kind).err(), Some(PostError::Incomplete));
    let no_text = br#"{"post_type":"message","message_type":"group","group_id":10,"user_id":20}"#;
    assert_eq!(analyze_raw_post_body(no_text).err(), Some(PostError::Incomplete));
    assert_eq!(analyze_raw_post_body(b"oops").err(), Some(PostError::NotJsonObject));
}

#[test]
fn pet_data_is_read() {
    let e = read_pet_entry("pat".to_string(), r#"{"alias": ["摸", "rua"], "x": 1}"#.as_bytes()).unwrap();
    assert_eq!(e.folder_name, "pat");
    assert_eq!(e.aliases, Some(vec!["摸".to_string(), "rua".to_string()]));
    let e = read_pet_entry("none".to_string(), br#"{"type": "IMG"}"#).unwrap();
    assert_eq!(e.aliases, None);
    assert!(matches!(read_pet_entry("bad".to_string(), br#"{"alias": "x"}"#), Err(PetDataError::BadAlias)));
    assert!(matches!(read_pet_entry("bad".to_string(), b"{"), Err(PetDataError::NotJsonObject)));
}

#[test]
fn target_groups_are_read() {
    assert_eq!(read_target_groups("[1, -2, 3]"), Some(vec![1, -2, 3]));
    assert_eq!(read_target_groups("[]"), Some(vec![]));
    assert_eq!(read_target_groups("{}"), None);
    assert_eq!(read_target_groups("[\"1\"]"), None);
}
