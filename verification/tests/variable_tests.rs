use configcrunch::document::from_dict;
use configcrunch::errors::ConfigError;
use configcrunch::registry::{doc_type_def, TypeRegistry};
use configcrunch::value::{Dict, YcdValue};
use configcrunch::variables::{process_variables_for, process_vars};

fn s(x: &str) -> YcdValue {
    YcdValue::Str(x.to_string())
}

fn dict(entries: Vec<(&str, YcdValue)>) -> Dict {
    let mut d = Dict::new();
    for (k, v) in entries {
        d.insert(k.to_string(), v);
    }
    d
}

#[test]
fn strings_without_braces_come_back_verbatim() {
    // Round-trip of scalar coercion: no `{` means no templating at all.
    let d = from_dict(dict(vec![("a", YcdValue::Int(1))]), 0);
    let r = process_variables_for(&d, "plain text, no templates").expect("renders");
    assert_eq!(r, s("plain text, no templates"));
    let r2 = process_variables_for(&d, "").expect("renders");
    assert_eq!(r2, s(""));
}

#[test]
fn arithmetic_results_coerce_to_integers() {
    // "{{ 1 + 1 }}" renders to "2" and must become Int(2).
    let d = from_dict(dict(vec![("x", s("{{ 1 + 1 }}"))]), 0);
    let processed = process_vars(d).expect("processes");
    assert_eq!(processed.content.get("x"), Some(&YcdValue::Int(2)));
}

#[test]
fn the_str_filter_keeps_numeric_text_a_string() {
    // A rendered "42" wrapped with the str filter stays String("42").
    let d = from_dict(dict(vec![("x", s("{{ '42' | str }}"))]), 0);
    let processed = process_vars(d).expect("processes");
    assert_eq!(processed.content.get("x"), Some(&s("42")));
}

#[test]
fn plain_numeric_render_becomes_an_integer() {
    let d = from_dict(dict(vec![("x", s("{{ '42' }}"))]), 0);
    let processed = process_vars(d).expect("processes");
    assert_eq!(processed.content.get("x"), Some(&YcdValue::Int(42)));
}

#[test]
fn fixed_point_resolves_variable_references() {
    // x: "{{ y }}", y: "5": x resolves to Int(5), and a second run makes
    // no further changes.
    let d = from_dict(dict(vec![("x", s("{{ y }}")), ("y", s("5"))]), 0);
    let once = process_vars(d).expect("processes");
    assert_eq!(once.content.get("x"), Some(&YcdValue::Int(5)));
    assert_eq!(once.content.get("y"), Some(&s("5")));
    let twice = process_vars(once).expect("processes again");
    assert_eq!(twice.content.get("x"), Some(&YcdValue::Int(5)));
    assert_eq!(twice.content.get("y"), Some(&s("5")));
}

#[test]
fn chained_variables_converge_over_passes() {
    // a needs b, and b needs c: the second pass finishes the job.
    let d = from_dict(
        dict(vec![
            ("a", s("{{ b }}!")),
            ("b", s("{{ c }}")),
            ("c", s("done")),
        ]),
        0,
    );
    let processed = process_vars(d).expect("processes");
    assert_eq!(processed.content.get("b"), Some(&s("done")));
    assert_eq!(processed.content.get("a"), Some(&s("done!")));
}

#[test]
fn startswith_and_substr_start_filters_work() {
    let d = from_dict(
        dict(vec![
            ("p", s("{{ 'hello' | startswith('he') }}")),
            ("q", s("{{ 'hello' | substr_start(2) }}")),
        ]),
        0,
    );
    let processed = process_vars(d).expect("processes");
    assert_eq!(processed.content.get("p"), Some(&s("True")));
    assert_eq!(processed.content.get("q"), Some(&s("llo")));
}

#[test]
fn nested_documents_are_processed_before_the_parent() {
    let mut reg = TypeRegistry::new();
    let _inner = reg.register(doc_type_def("inner", Vec::new()));
    let inner_doc = from_dict(dict(vec![("v", s("{{ 2 + 3 }}"))]), 0);
    let d = from_dict(
        dict(vec![("sub", YcdValue::Doc(Box::new(inner_doc)))]),
        0,
    );
    let processed = process_vars(d).expect("processes");
    match processed.content.get("sub") {
        Some(YcdValue::Doc(b)) => {
            assert_eq!(b.content.get("v"), Some(&YcdValue::Int(5)));
        }
        other => panic!("expected a document, got {:?}", other),
    }
}

#[test]
fn nested_documents_can_reach_their_parent() {
    let inner_doc = from_dict(dict(vec![("v", s("{{ parent().shared }}"))]), 0);
    let d = from_dict(
        dict(vec![
            ("sub", YcdValue::Doc(Box::new(inner_doc))),
            ("shared", s("77")),
        ]),
        0,
    );
    let processed = process_vars(d).expect("processes");
    match processed.content.get("sub") {
        Some(YcdValue::Doc(b)) => {
            assert_eq!(b.content.get("v"), Some(&YcdValue::Int(77)));
        }
        other => panic!("expected a document, got {:?}", other),
    }
}

#[test]
fn render_failures_name_the_original_string() {
    let mut d = from_dict(dict(vec![("x", s("{{ unclosed"))]), 0);
    d.absolute_paths = vec!["/r/a.yml".to_string()];
    match process_vars(d) {
        Err(ConfigError::VariableProcessing {
            original,
            document_path,
            ..
        }) => {
            assert_eq!(original, "{{ unclosed");
            assert_eq!(document_path, Some("/r/a.yml".to_string()));
        }
        other => panic!("expected VariableProcessing, got {:?}", other),
    }
}

#[test]
fn float_fields_render_through_templates() {
    let n = serde_yaml::Number::from(1.5_f64);
    let d = from_dict(
        dict(vec![("f", YcdValue::Float(n)), ("x", s("f is {{ f }}"))]),
        0,
    );
    let processed = process_vars(d).expect("processes");
    assert_eq!(processed.content.get("x"), Some(&s("f is 1.5")));
}

#[test]
fn process_vars_rejects_frozen_documents() {
    let d = from_dict(dict(vec![("x", s("v"))]), 0);
    let frozen = d.freeze();
    match process_vars(frozen) {
        Err(ConfigError::AlreadyFrozen) => {}
        other => panic!("expected AlreadyFrozen, got {:?}", other),
    }
}

#[test]
fn freeze_snapshots_and_unfreeze_restores() {
    let d = from_dict(dict(vec![("x", s("v"))]), 0);
    assert!(d.doc().is_err());
    let mut frozen = d.freeze();
    assert!(frozen.is_frozen());
    assert_eq!(frozen.doc().expect("snapshot").get("x"), Some(&s("v")));
    // Edits under the internal-access window go to the snapshot.
    frozen.internal_set("y".to_string(), YcdValue::Int(9));
    assert!(frozen.internal_contains("y"));
    assert_eq!(frozen.internal_get("y"), Some(YcdValue::Int(9)));
    frozen.internal_delete("x");
    assert!(!frozen.internal_contains("x"));
    let restored = frozen.unfreeze_sync();
    assert!(!restored.is_frozen());
    assert_eq!(restored.content.get("y"), Some(&YcdValue::Int(9)));
    assert!(restored.content.get("x").is_none());
}

#[test]
fn frozen_documents_reject_resolution() {
    let reg = {
        let mut r = TypeRegistry::new();
        r.register(doc_type_def("widget", Vec::new()));
        r
    };
    let fs = configcrunch::loader::FileSet::new();
    let roots: Vec<String> = Vec::new();
    let d = from_dict(dict(vec![]), 0).freeze();
    match configcrunch::resolver::resolve_and_merge_references(&reg, &fs, &roots, d) {
        Err(ConfigError::AlreadyFrozen) => {}
        other => panic!("expected AlreadyFrozen, got {:?}", other),
    }
}

#[test]
fn to_dict_exports_a_header_keyed_plain_tree() {
    let mut reg = TypeRegistry::new();
    reg.register(doc_type_def("widget", Vec::new()));
    let inner = from_dict(dict(vec![("k", s("v"))]), 0);
    let d = from_dict(
        dict(vec![("sub", YcdValue::Doc(Box::new(inner)))]),
        0,
    );
    let exported = d.to_dict(&reg).expect("exports");
    match exported {
        YcdValue::Dict(top) => match top.get("widget") {
            Some(YcdValue::Dict(body)) => match body.get("sub") {
                Some(YcdValue::Dict(plain)) => {
                    assert_eq!(plain.get("k"), Some(&s("v")));
                }
                other => panic!("expected a plain dict, got {:?}", other),
            },
            other => panic!("expected the body, got {:?}", other),
        },
        other => panic!("expected a dict, got {:?}", other),
    }
}

#[test]
fn duplicate_preserves_whole_trees() {
    let n = serde_yaml::Number::from(2.5_f64);
    let v = YcdValue::Dict(dict(vec![
        ("a", YcdValue::List(vec![YcdValue::Int(1), s("x")])),
        ("b", YcdValue::Bool(true)),
        ("c", YcdValue::Float(n)),
    ]));
    assert_eq!(v.duplicate(), v);
}
