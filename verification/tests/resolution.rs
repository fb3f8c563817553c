use json_env::resolve::{resolve_sources, ResolveError};

fn no_env() -> Vec<(String, String)> {
    Vec::new()
}

fn one_source(text: &str, path: &str) -> Vec<(String, String)> {
    vec![(text.to_string(), path.to_string())]
}

#[test]
fn parse_simple() {
    let simple_json = "{\n    \"NODE_ENV\": \"DEV\"\n}";
    let val = resolve_sources(&one_source(simple_json, "$"), false, &no_env());
    assert!(val.is_ok());
    let env_vars = val.unwrap();
    let node_env = env_vars.get(&"NODE_ENV".to_string());
    assert!(node_env.is_some());
    assert_eq!(node_env.unwrap().to_string(), "DEV".to_string());
}

#[test]
fn expand() {
    let extendable_json = "{\n    \"TEST\": \"$FOO\"\n}";
    let env = vec![("FOO".to_string(), "Bar".to_string())];
    let val = resolve_sources(&one_source(extendable_json, "$"), true, &env);
    assert!(val.is_ok());
    let env_vars = val.unwrap();
    let node_env = env_vars.get(&"TEST".to_string());
    assert!(node_env.is_some());
    assert_eq!(node_env.unwrap().to_string(), "Bar".to_string());
}

#[test]
fn expand_nested() {
    let extendable_json = "{\n    \"TEST\": {\n        \"nested\": \"$FOO\"\n    }\n}";
    let env = vec![("FOO".to_string(), "Bar".to_string())];
    let val = resolve_sources(&one_source(extendable_json, "$"), true, &env);
    assert!(val.is_ok());
    let env_vars = val.unwrap();
    let node_env = env_vars.get(&"TEST".to_string());
    assert!(node_env.is_some());
    assert!(node_env.unwrap().contains("Bar"));
}

#[test]
fn use_json_path() {
    let nested_json = "{\n    \"nested\": {\n        \"hello\": \"world\"\n    }\n}";
    let val = resolve_sources(&one_source(nested_json, "$.nested"), true, &no_env());
    assert!(val.is_ok());
    let env_vars = val.unwrap();
    let hello = env_vars.get(&"hello".to_string());
    assert!(hello.is_some());
    assert_eq!(hello.unwrap(), "world");
}

#[test]
fn missing_path_is_an_error_not_empty_success() {
    let nested_json = "{\"nested\": {\"hello\": \"world\"}}";
    let val = resolve_sources(&one_source(nested_json, "$.missing"), false, &no_env());
    assert!(matches!(val, Err(ResolveError::Path { source: 0 })));
}

#[test]
fn malformed_document_is_a_parse_error() {
    let val = resolve_sources(&one_source("{\"unclosed\": ", "$"), false, &no_env());
    assert!(matches!(val, Err(ResolveError::Parse { source: 0, .. })));
}

#[test]
fn malformed_expression_is_a_parse_error() {
    let val = resolve_sources(&one_source("{\"a\": 1}", "$.[["), false, &no_env());
    assert!(matches!(val, Err(ResolveError::Parse { source: 0, .. })));
}

#[test]
fn later_source_wins_on_key_collision() {
    let sources = vec![
        ("{\"KEY\": \"first\", \"ONLY\": \"here\"}".to_string(), "$".to_string()),
        ("{\"KEY\": \"second\"}".to_string(), "$".to_string()),
    ];
    let val = resolve_sources(&sources, false, &no_env());
    assert!(val.is_ok());
    let env_vars = val.unwrap();
    assert_eq!(env_vars.get(&"KEY".to_string()).unwrap(), "second");
    assert_eq!(env_vars.get(&"ONLY".to_string()).unwrap(), "here");
}

#[test]
fn appending_a_source_never_removes_keys() {
    let first = ("{\"A\": \"1\", \"B\": \"2\"}".to_string(), "$".to_string());
    let second = ("{\"B\": \"overridden\", \"C\": \"3\"}".to_string(), "$".to_string());

    let shorter = resolve_sources(&vec![first.clone()], false, &no_env()).unwrap();
    let longer = resolve_sources(&vec![first, second], false, &no_env()).unwrap();

    for (key, _) in shorter.entries() {
        assert!(longer.get(key).is_some());
    }
    assert_eq!(longer.get(&"B".to_string()).unwrap(), "overridden");
    assert_eq!(longer.get(&"C".to_string()).unwrap(), "3");
}

#[test]
fn scalar_values_resolve_to_canonical_text() {
    let doc = "{\"S\": \"plain\", \"N\": 42, \"F\": 1.5, \"T\": true, \"B\": false, \"Z\": null}";
    let env_vars = resolve_sources(&one_source(doc, "$"), false, &no_env()).unwrap();
    assert_eq!(env_vars.get(&"S".to_string()).unwrap(), "plain");
    assert_eq!(env_vars.get(&"N".to_string()).unwrap(), "42");
    assert_eq!(env_vars.get(&"F".to_string()).unwrap(), "1.5");
    assert_eq!(env_vars.get(&"T".to_string()).unwrap(), "true");
    assert_eq!(env_vars.get(&"B".to_string()).unwrap(), "false");
    assert_eq!(env_vars.get(&"Z".to_string()).unwrap(), "null");
}

#[test]
fn structured_values_resolve_to_serialized_text() {
    let doc = "{\"ARR\": [1, \"two\", null], \"OBJ\": {\"inner\": true}}";
    let env_vars = resolve_sources(&one_source(doc, "$"), false, &no_env()).unwrap();
    assert_eq!(env_vars.get(&"ARR".to_string()).unwrap(), "[1,\"two\",null]");
    assert_eq!(env_vars.get(&"OBJ".to_string()).unwrap(), "{\"inner\":true}");
}

#[test]
fn empty_object_source_succeeds_with_no_entries() {
    let env_vars = resolve_sources(&one_source("{}", "$"), false, &no_env()).unwrap();
    assert_eq!(env_vars.len(), 0);
}

#[test]
fn scalar_only_selection_is_a_path_error() {
    let val = resolve_sources(&one_source("{\"a\": {\"b\": 7}}", "$.a.b"), false, &no_env());
    assert!(matches!(val, Err(ResolveError::Path { source: 0 })));
}

#[test]
fn failing_source_reports_its_index() {
    let sources = vec![
        ("{\"GOOD\": \"1\"}".to_string(), "$".to_string()),
        ("not json".to_string(), "$".to_string()),
    ];
    let val = resolve_sources(&sources, false, &no_env());
    assert!(matches!(val, Err(ResolveError::Parse { source: 1, .. })));
}
