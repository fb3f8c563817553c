use json_env::env_map::EnvMap;
use json_env::merge::add_values_to_map;
use json_env::value::JsonValue;

#[test]
fn insert_overwrites_and_get_finds() {
    let mut map = EnvMap::new();
    map.insert("KEY".to_string(), "first".to_string());
    map.insert("OTHER".to_string(), "kept".to_string());
    map.insert("KEY".to_string(), "second".to_string());
    assert_eq!(map.get(&"KEY".to_string()).unwrap(), "second");
    assert_eq!(map.get(&"OTHER".to_string()).unwrap(), "kept");
    assert!(map.get(&"ABSENT".to_string()).is_none());
    assert_eq!(map.len(), 2);
}

#[test]
fn entries_keep_insertion_order_without_duplicates() {
    let mut map = EnvMap::new();
    map.insert("A".to_string(), "1".to_string());
    map.insert("B".to_string(), "2".to_string());
    map.insert("A".to_string(), "3".to_string());
    let entries = map.entries();
    assert_eq!(entries.len(), 2);
    assert_eq!(entries[0], ("A".to_string(), "3".to_string()));
    assert_eq!(entries[1], ("B".to_string(), "2".to_string()));
}

#[test]
fn non_object_nodes_contribute_nothing() {
    let mut map = EnvMap::new();
    let values = vec![
        JsonValue::Num("7".to_string()),
        JsonValue::Arr(vec![JsonValue::Bool(true)]),
        JsonValue::Obj(vec![("K".to_string(), JsonValue::Str("v".to_string()))]),
    ];
    add_values_to_map(&values, false, &Vec::new(), &mut map);
    assert_eq!(map.len(), 1);
    assert_eq!(map.get(&"K".to_string()).unwrap(), "v");
}

#[test]
fn empty_keys_contribute_nothing() {
    let mut map = EnvMap::new();
    let values = vec![JsonValue::Obj(vec![
        ("".to_string(), JsonValue::Str("dropped".to_string())),
        ("KEPT".to_string(), JsonValue::Str("yes".to_string())),
    ])];
    add_values_to_map(&values, false, &Vec::new(), &mut map);
    assert_eq!(map.len(), 1);
    assert_eq!(map.get(&"KEPT".to_string()).unwrap(), "yes");
}

#[test]
fn merge_expands_only_when_asked() {
    let env = vec![("FOO".to_string(), "Bar".to_string())];
    let values = vec![JsonValue::Obj(vec![(
        "TEST".to_string(),
        JsonValue::Str("$FOO".to_string()),
    )])];

    let mut plain = EnvMap::new();
    add_values_to_map(&values, false, &env, &mut plain);
    assert_eq!(plain.get(&"TEST".to_string()).unwrap(), "$FOO");

    let mut expanded = EnvMap::new();
    add_values_to_map(&values, true, &env, &mut expanded);
    assert_eq!(expanded.get(&"TEST".to_string()).unwrap(), "Bar");
}
