use configcrunch::merger::{delete_remove_markers, merge_documents, merge_values};
use configcrunch::value::{Dict, Document, YcdValue};

fn s(x: &str) -> YcdValue {
    YcdValue::Str(x.to_string())
}

fn dict(entries: Vec<(&str, YcdValue)>) -> Dict {
    let mut d = Dict::new();
    for (k, v) in entries {
        d.insert(k.to_string(), v);
    }
    d
}

fn doc(content: Dict) -> Document {
    configcrunch::document::from_dict(content, 0)
}

#[test]
fn list_removal_semantics() {
    // Merging target list ["a", "$remove::b", "c"] with source list
    // ["b", "d"] yields ["a", "c", "d"].
    let target = YcdValue::List(vec![s("a"), s("$remove::b"), s("c")]);
    let source = YcdValue::List(vec![s("b"), s("d")]);
    let merged = merge_values(&target, &source);
    assert_eq!(merged, YcdValue::List(vec![s("a"), s("c"), s("d")]));
}

#[test]
fn list_removal_keeps_non_strings() {
    let target = YcdValue::List(vec![s("$remove::b"), YcdValue::Int(1)]);
    let source = YcdValue::List(vec![s("b"), YcdValue::Bool(true)]);
    let merged = merge_values(&target, &source);
    assert_eq!(
        merged,
        YcdValue::List(vec![YcdValue::Int(1), YcdValue::Bool(true)])
    );
}

#[test]
fn dict_removal_semantics() {
    // The winning document's map binds "k" to $remove; merging it over any
    // source containing "k" and cleaning leaves no "k" at all.
    let winner = YcdValue::Dict(dict(vec![("k", s("$remove"))]));
    let base = YcdValue::Dict(dict(vec![("k", s("x")), ("j", YcdValue::Int(1))]));
    // The merge-winner is passed as the source node of the recursion.
    let merged = merge_values(&base, &winner);
    let cleaned = delete_remove_markers(&merged).expect("cleanup succeeds");
    match cleaned {
        YcdValue::Dict(d) => {
            assert!(d.get("k").is_none());
            assert_eq!(d.get("j"), Some(&YcdValue::Int(1)));
        }
        other => panic!("expected a dict, got {:?}", other),
    }
}

#[test]
fn dict_removal_works_for_structured_values() {
    let winner = YcdValue::Dict(dict(vec![("k", s("$remove"))]));
    let base = YcdValue::Dict(dict(vec![(
        "k",
        YcdValue::Dict(dict(vec![("inner", s("v"))])),
    )]));
    let merged = merge_values(&base, &winner);
    let cleaned = delete_remove_markers(&merged).expect("cleanup succeeds");
    match cleaned {
        YcdValue::Dict(d) => assert_eq!(d.len(), 0),
        other => panic!("expected a dict, got {:?}", other),
    }
}

#[test]
fn cleanup_is_idempotent() {
    let tree = YcdValue::Dict(dict(vec![
        ("gone", s("$remove")),
        ("kept", s("value")),
        (
            "list",
            YcdValue::List(vec![s("a"), s("$remove::b"), s("b"), YcdValue::Int(3)]),
        ),
        ("nested", YcdValue::Dict(dict(vec![("inner", s("$remove"))]))),
    ]));
    let once = delete_remove_markers(&tree).expect("first cleanup succeeds");
    let twice = delete_remove_markers(&once).expect("second cleanup succeeds");
    assert_eq!(once, twice);
    match &once {
        YcdValue::Dict(d) => {
            assert!(d.get("gone").is_none());
            assert_eq!(d.get("kept"), Some(&s("value")));
            assert_eq!(
                d.get("list"),
                Some(&YcdValue::List(vec![s("a"), YcdValue::Int(3)]))
            );
            assert_eq!(d.get("nested"), Some(&YcdValue::Dict(Dict::new())));
        }
        other => panic!("expected a dict, got {:?}", other),
    }
}

#[test]
fn bare_remove_outside_dict_value_is_an_error() {
    let tree = YcdValue::List(vec![s("$remove")]);
    let r = delete_remove_markers(&tree);
    assert_eq!(r, Err(configcrunch::errors::ConfigError::InvalidRemove));
}

#[test]
fn scalar_merge_lets_target_document_win() {
    // Document-level merge: the target document's explicit fields win,
    // the source structurally extends it.
    let target = doc(dict(vec![("name", s("A"))]));
    let source = doc(dict(vec![("name", s("B")), ("color", s("red"))]));
    let merged = merge_documents(&target, &source);
    assert_eq!(merged.content.get("name"), Some(&s("A")));
    assert_eq!(merged.content.get("color"), Some(&s("red")));
}

#[test]
fn nested_maps_merge_instead_of_overwriting() {
    let target = doc(dict(vec![(
        "outer",
        YcdValue::Dict(dict(vec![("a", YcdValue::Int(1))])),
    )]));
    let source = doc(dict(vec![(
        "outer",
        YcdValue::Dict(dict(vec![("a", YcdValue::Int(9)), ("b", YcdValue::Int(2))])),
    )]));
    let merged = merge_documents(&target, &source);
    match merged.content.get("outer") {
        Some(YcdValue::Dict(d)) => {
            assert_eq!(d.get("a"), Some(&YcdValue::Int(1)));
            assert_eq!(d.get("b"), Some(&YcdValue::Int(2)));
        }
        other => panic!("expected a dict, got {:?}", other),
    }
}

#[test]
fn merge_unions_bookkeeping_paths_without_duplicates() {
    let mut target = doc(dict(vec![]));
    target.absolute_paths = vec!["/r/a.yml".to_string(), "/r/b.yml".to_string()];
    let mut source = doc(dict(vec![]));
    source.absolute_paths = vec!["/r/b.yml".to_string(), "/r/c.yml".to_string()];
    let merged = merge_documents(&target, &source);
    assert_eq!(
        merged.absolute_paths,
        vec![
            "/r/a.yml".to_string(),
            "/r/b.yml".to_string(),
            "/r/c.yml".to_string()
        ]
    );
}

#[test]
fn floats_pass_through_merging_unchanged() {
    let n = serde_yaml::Number::from(1.5_f64);
    let target = doc(dict(vec![("f", YcdValue::Float(n.clone()))]));
    let source = doc(dict(vec![("g", YcdValue::Int(2))]));
    let merged = merge_documents(&target, &source);
    assert_eq!(merged.content.get("f"), Some(&YcdValue::Float(n)));
}

#[test]
fn parse_i64_matches_rust_semantics() {
    let cases: Vec<(&str, Option<i64>)> = vec![
        ("42", Some(42)),
        ("+7", Some(7)),
        ("-13", Some(-13)),
        ("0", Some(0)),
        ("-0", Some(0)),
        ("007", Some(7)),
        ("9223372036854775807", Some(i64::MAX)),
        ("-9223372036854775808", Some(i64::MIN)),
        ("9223372036854775808", None),
        ("-9223372036854775809", None),
        ("", None),
        ("+", None),
        ("-", None),
        ("4 2", None),
        (" 42", None),
        ("42x", None),
        ("1.5", None),
    ];
    for (input, expected) in cases {
        let chars: Vec<char> = input.chars().collect();
        assert_eq!(
            configcrunch::strutil::parse_i64(&chars),
            expected,
            "parsing {:?}",
            input
        );
        assert_eq!(input.parse::<i64>().ok(), expected, "oracle for {:?}", input);
    }
}

#[test]
fn keys_and_values_follow_entry_order() {
    let d = dict(vec![("b", YcdValue::Int(2)), ("a", YcdValue::Int(1))]);
    assert_eq!(d.keys(), vec!["b".to_string(), "a".to_string()]);
    assert_eq!(d.values(), vec![YcdValue::Int(2), YcdValue::Int(1)]);
}

#[test]
fn error_str_names_the_document_type() {
    let mut reg = configcrunch::registry::TypeRegistry::new();
    reg.register(configcrunch::registry::doc_type_def("widget", Vec::new()));
    let d = configcrunch::document::from_dict(Dict::new(), 0);
    assert_eq!(d.error_str(&reg).expect("known type"), "type widget".to_string());
}

#[test]
fn unwrap_as_map_rejects_non_mappings() {
    let v = s("text");
    assert!(v.unwrap_as_map().is_err());
    let d = YcdValue::Dict(dict(vec![("a", YcdValue::Int(1))]));
    assert!(d.unwrap_as_map().is_ok());
}
