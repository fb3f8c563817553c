use json_env::expand::expand;

fn env(pairs: &[(&str, &str)]) -> Vec<(String, String)> {
    pairs.iter().map(|(k, v)| (k.to_string(), v.to_string())).collect()
}

#[test]
fn defined_reference_is_substituted() {
    assert_eq!(expand("$FOO", &env(&[("FOO", "Bar")])), "Bar");
    assert_eq!(expand("pre $FOO post", &env(&[("FOO", "Bar")])), "pre Bar post");
}

#[test]
fn all_occurrences_are_substituted() {
    assert_eq!(expand("$A and $A", &env(&[("A", "x")])), "x and x");
}

#[test]
fn undefined_reference_stays_verbatim() {
    assert_eq!(expand("$MISSING stays", &env(&[("FOO", "Bar")])), "$MISSING stays");
    assert_eq!(expand("lone $ sign", &env(&[("FOO", "Bar")])), "lone $ sign");
}

#[test]
fn expansion_without_matching_name_is_identity() {
    let snapshot = env(&[("FOO", "Bar")]);
    for text in ["plain text", "", "almost $FO reference", "$"] {
        assert_eq!(expand(text, &snapshot), text);
    }
}

#[test]
fn longest_defined_name_wins() {
    let snapshot = env(&[("FOO", "short"), ("FOOBAR", "long")]);
    assert_eq!(expand("$FOOBAR", &snapshot), "long");
    assert_eq!(expand("$FOO", &snapshot), "short");
    let reversed = env(&[("FOOBAR", "long"), ("FOO", "short")]);
    assert_eq!(expand("$FOOBAR", &reversed), "long");
}

#[test]
fn substituted_text_is_not_re_expanded() {
    let snapshot = env(&[("A", "$B"), ("B", "never")]);
    assert_eq!(expand("$A", &snapshot), "$B");
}

#[test]
fn adjacent_references_expand_independently() {
    let snapshot = env(&[("A", "1"), ("B", "2")]);
    assert_eq!(expand("$A$B", &snapshot), "12");
}
