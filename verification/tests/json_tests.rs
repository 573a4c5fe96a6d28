use remote_juggler_config::json::{find_member, JsonValue};
use remote_juggler_config::{config_path_from, config_path_under, Config, EnvironmentError, TextMap};

fn to_raw(value: &JsonValue) -> serde_json::Value {
    match value {
        JsonValue::Null => serde_json::Value::Null,
        JsonValue::Bool(b) => serde_json::Value::Bool(*b),
        JsonValue::Number(n) => serde_json::from_str(n).expect("a number"),
        JsonValue::Str(s) => serde_json::Value::String(s.clone()),
        JsonValue::Array(items) => serde_json::Value::Array(items.iter().map(to_raw).collect()),
        JsonValue::Object(members) => serde_json::Value::Object(
            members.iter().map(|(k, v)| (k.clone(), to_raw(v))).collect(),
        ),
    }
}

fn to_text(value: &JsonValue) -> String {
    serde_json::to_string(&to_raw(value)).expect("Failed to serialize")
}

#[test]
fn parse_gives_the_document() {
    let doc = JsonValue::parse(r#" {"b": [true, null, "x"], "a": {"k": false}} "#)
        .expect("Failed to parse");
    let expected = JsonValue::Object(vec![
        (
            "a".to_string(),
            JsonValue::Object(vec![("k".to_string(), JsonValue::Bool(false))]),
        ),
        (
            "b".to_string(),
            JsonValue::Array(vec![
                JsonValue::Bool(true),
                JsonValue::Null,
                JsonValue::Str("x".to_string()),
            ]),
        ),
    ]);
    assert_eq!(doc, expected);
    assert_ne!(doc, JsonValue::Str(r#" {"b": [true, null, "x"]} "#.to_string()));
}

#[test]
fn parse_refuses_what_is_no_json() {
    for text in ["", "{", "[1,]", "tru", "\"open", "{\"a\" 1}", "1 2"] {
        let message = JsonValue::parse(text).expect_err("no JSON");
        assert!(!message.is_empty(), "{}", text);
    }
}

#[test]
fn parsed_document_writes_back() {
    let doc = JsonValue::Object(vec![
        ("a".to_string(), JsonValue::Array(vec![JsonValue::Null, JsonValue::Bool(true)])),
        ("b".to_string(), JsonValue::Str("q\"uote".to_string())),
    ]);
    let text = to_text(&doc);
    assert_eq!(text, r#"{"a":[null,true],"b":"q\"uote"}"#);
    assert_eq!(JsonValue::parse(&text), Ok(doc));
}

#[test]
fn numbers_are_kept_as_text() {
    for (text, kept) in [
        ("0", "0"),
        ("-7", "-7"),
        ("18446744073709551615", "18446744073709551615"),
        ("2.5", "2.5"),
        ("1e3", "1000.0"),
        ("-0.125", "-0.125"),
        (" 42 ", "42"),
    ] {
        let doc = JsonValue::parse(text).expect("Failed to parse");
        assert_eq!(doc, JsonValue::Number(kept.to_string()), "{}", text);
        assert_eq!(JsonValue::parse(&to_text(&doc)), Ok(doc));
    }
    assert_ne!(JsonValue::parse("1"), JsonValue::parse("2"));
    assert_eq!(JsonValue::parse("1").ok().and_then(|d| d.as_bool()), None);
}

#[test]
fn clone_is_equal() {
    let doc = JsonValue::parse(r#"{"a": [1, {"b": null}], "c": "d", "e": 2.5}"#)
        .expect("Failed to parse");
    assert_eq!(doc.clone(), doc);
}

#[test]
fn accessors_tell_the_kinds_apart() {
    let text = JsonValue::Str("t".to_string());
    let flag = JsonValue::Bool(true);
    let list = JsonValue::Array(vec![JsonValue::Null]);
    let object = JsonValue::Object(vec![("k".to_string(), JsonValue::Null)]);
    assert_eq!(text.as_str(), Some("t"));
    assert_eq!(flag.as_str(), None);
    assert_eq!(flag.as_bool(), Some(true));
    assert_eq!(text.as_bool(), None);
    assert_eq!(list.as_array(), Some(&vec![JsonValue::Null]));
    assert_eq!(object.as_array(), None);
    assert_eq!(
        object.as_object(),
        Some(&vec![("k".to_string(), JsonValue::Null)])
    );
    assert_eq!(JsonValue::Null.as_object(), None);
}

#[test]
fn find_member_takes_the_last_of_a_key() {
    let members = vec![
        ("a".to_string(), JsonValue::Bool(false)),
        ("b".to_string(), JsonValue::Null),
        ("a".to_string(), JsonValue::Bool(true)),
    ];
    assert_eq!(find_member(&members, "a"), Some(&JsonValue::Bool(true)));
    assert_eq!(find_member(&members, "b"), Some(&JsonValue::Null));
    assert_eq!(find_member(&members, "c"), None);
    assert_eq!(find_member(&Vec::new(), "a"), None);
}

#[test]
fn text_map_keeps_key_order() {
    let mut map: TextMap<JsonValue> = TextMap::new();
    assert_eq!(map.len(), 0);
    for key in ["pear", "apple", "zebra", "mango", "app", "Apple"] {
        map.insert(key.to_string(), JsonValue::Str(key.to_uppercase()));
    }
    let keys: Vec<&str> = (0..map.len()).map(|i| map.key_at(i).as_str()).collect();
    assert_eq!(keys, vec!["Apple", "app", "apple", "mango", "pear", "zebra"]);
    assert_eq!(map.value_at(3), &JsonValue::Str("MANGO".to_string()));
    assert_eq!(map.get("pear"), Some(&JsonValue::Str("PEAR".to_string())));
    assert_eq!(map.get("peach"), None);
    assert!(map.contains_key("app"));
    assert!(!map.contains_key(""));
}

#[test]
fn text_map_insert_replaces() {
    let mut map: TextMap<JsonValue> = TextMap::new();
    map.insert("k".to_string(), JsonValue::Bool(false));
    map.insert("j".to_string(), JsonValue::Null);
    map.insert("k".to_string(), JsonValue::Bool(true));
    assert_eq!(map.len(), 2);
    assert_eq!(map.get("k"), Some(&JsonValue::Bool(true)));
    assert_eq!(map.key_at(0), "j");
}

#[test]
fn text_map_orders_by_bytes() {
    let mut map: TextMap<JsonValue> = TextMap::new();
    for key in ["é", "z", "e", "", "zz", "日本"] {
        map.insert(key.to_string(), JsonValue::Null);
    }
    let keys: Vec<&str> = (0..map.len()).map(|i| map.key_at(i).as_str()).collect();
    let mut sorted = vec!["é", "z", "e", "", "zz", "日本"];
    sorted.sort();
    assert_eq!(keys, sorted);
}

#[test]
fn config_path_is_below_the_directory() {
    assert_eq!(
        config_path_under("/home/alice/.config"),
        "/home/alice/.config/remote-juggler/config.json"
    );
    assert_eq!(
        config_path_under("/home/alice/.config/"),
        "/home/alice/.config/remote-juggler/config.json"
    );
    assert_eq!(config_path_under(""), "remote-juggler/config.json");
    assert_eq!(config_path_under("/"), "/remote-juggler/config.json");
    assert_eq!(
        config_path_under("/home/zoë"),
        "/home/zoë/remote-juggler/config.json"
    );
}

#[test]
fn config_path_needs_a_directory() {
    assert_eq!(
        config_path_from(Some("/etc/xdg".to_string())),
        Ok("/etc/xdg/remote-juggler/config.json".to_string())
    );
    assert_eq!(config_path_from(None), Err(EnvironmentError::NoConfigDir));
}

#[test]
fn default_config_path_follows_the_platform() {
    match Config::config_path() {
        Ok(path) => {
            assert!(path.ends_with("remote-juggler/config.json"));
            assert_ne!(path, "remote-juggler/config.json");
        }
        Err(error) => assert_eq!(error, EnvironmentError::NoConfigDir),
    }
}
