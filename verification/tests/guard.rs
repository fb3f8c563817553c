use json_env::path_guard::path_supported;
use json_env::resolve::{resolve_sources, ResolveError};

#[test]
fn common_expressions_are_supported() {
    for path in [
        "$",
        "$.nested",
        "$..book",
        "$.a[0]",
        "$.a[1,2]",
        "$.a[0:2]",
        "$.a[0:2:1]",
        "$.a[-2:]",
        "$.a[*]",
        "$['key']",
        "$[\"key\"]",
        "$['a','b']",
        "$.a[?(@.price > 10)]",
        "$.a[?(@.x == 'y')]",
        "$.a[?(@.r ~= 'a.b')]",
    ] {
        assert!(path_supported(path), "expected support for {path}");
    }
}

#[test]
fn aborting_index_forms_are_refused() {
    for path in [
        "$.a[-1,0]",
        "$.a[1.5,2]",
        "$.a[1e3,2]",
        "$.a[0:2:0]",
        "$.a[::0]",
        "$.a[:: 0 ]",
        "$.a[9999999999999999999]",
        "$.a[?(@.b[0] == 1)]",
    ] {
        assert!(!path_supported(path), "expected refusal of {path}");
    }
}

#[test]
fn refused_expression_is_a_parse_error_not_an_abort() {
    let doc = "{\"a\": [1, 2]}".to_string();
    for path in ["$.a[0:2:0]", "$.a[-1,0]", "$.a[1.5,2]"] {
        let sources = vec![(doc.clone(), path.to_string())];
        let val = resolve_sources(&sources, false, &Vec::new());
        assert!(matches!(val, Err(ResolveError::Parse { source: 0, .. })));
    }
}

#[test]
fn supported_index_forms_reach_the_engine() {
    let doc = "{\"a\": [{\"k\": \"v\"}, {\"j\": \"w\"}]}".to_string();

    let single = resolve_sources(&vec![(doc.clone(), "$.a[0]".to_string())], false, &Vec::new())
        .unwrap();
    assert_eq!(single.get(&"k".to_string()).unwrap(), "v");

    let union = resolve_sources(&vec![(doc.clone(), "$.a[0,1]".to_string())], false, &Vec::new())
        .unwrap();
    assert_eq!(union.get(&"k".to_string()).unwrap(), "v");
    assert_eq!(union.get(&"j".to_string()).unwrap(), "w");

    let slice = resolve_sources(&vec![(doc, "$.a[0:2]".to_string())], false, &Vec::new())
        .unwrap();
    assert_eq!(slice.len(), 2);
}

#[test]
fn quoted_key_selection_is_supported() {
    let doc = "{\"nested\": {\"hello\": \"world\"}}".to_string();
    let env_vars = resolve_sources(&vec![(doc, "$['nested']".to_string())], false, &Vec::new())
        .unwrap();
    assert_eq!(env_vars.get(&"hello".to_string()).unwrap(), "world");
}
