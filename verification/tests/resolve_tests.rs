use configcrunch::document::{from_dict, from_yaml, load_multiple_yml};
use configcrunch::errors::ConfigError;
use configcrunch::loader::{normalize_path, path_in_repo, resolve_repo_roots, FileSet, LoadedFile};
use configcrunch::registry::{doc_type_def, subdoc_spec, TypeRegistry};
use configcrunch::resolver::{resolve_and_merge, resolve_and_merge_references};
use configcrunch::value::{Dict, Document, YcdValue};

fn s(x: &str) -> YcdValue {
    YcdValue::Str(x.to_string())
}

fn dict(entries: Vec<(&str, YcdValue)>) -> Dict {
    let mut d = Dict::new();
    for (k, v) in entries {
        d.insert(k.to_string(), v);
    }
    d
}

fn widget_registry() -> TypeRegistry {
    let mut reg = TypeRegistry::new();
    reg.register(doc_type_def("widget", Vec::new()));
    reg
}

fn file(body: Vec<(&str, YcdValue)>) -> LoadedFile {
    LoadedFile::Parsed(dict(vec![("widget", YcdValue::Dict(dict(body)))]))
}

#[test]
fn path_in_repo_follows_the_base_directory() {
    assert_eq!(path_in_repo(&None, "/b"), "/b".to_string());
    assert_eq!(path_in_repo(&None, "b"), "b".to_string());
    assert_eq!(path_in_repo(&Some("a.yml".to_string()), "b"), "/b".to_string());
    assert_eq!(
        path_in_repo(&Some("/x/y.yml".to_string()), "b"),
        "/x/b".to_string()
    );
    assert_eq!(
        path_in_repo(&Some("x/y.yml".to_string()), "b"),
        "/x/b".to_string()
    );
    assert_eq!(path_in_repo(&Some("/x/y.yml".to_string()), "/c"), "/c".to_string());
}

#[test]
fn normalize_path_resolves_dot_segments() {
    assert_eq!(normalize_path("/r/a/../b.yml"), Some("/r/b.yml".to_string()));
    assert_eq!(normalize_path("/a/./b"), Some("/a/b".to_string()));
    assert_eq!(normalize_path("r//x"), Some("/r/x".to_string()));
    assert_eq!(normalize_path("/.."), None);
    assert_eq!(normalize_path("/a/../../b"), None);
}

#[test]
fn candidate_paths_follow_lookup_order() {
    let roots = vec!["/one".to_string(), "/two".to_string()];
    let cands = configcrunch::loader::candidate_absolute_paths("/b", &roots);
    assert_eq!(cands, vec!["/one/b".to_string(), "/two/b".to_string()]);
    let cands2 = configcrunch::loader::candidate_absolute_paths("b", &roots);
    assert_eq!(cands2, vec!["/one/b".to_string(), "/two/b".to_string()]);
}

#[test]
fn repo_roots_resolve_against_the_working_directory() {
    let roots = resolve_repo_roots(
        &vec!["/abs/repo".to_string(), "rel/repo".to_string()],
        "/cwd",
    );
    assert_eq!(
        roots,
        vec!["/abs/repo".to_string(), "/cwd/rel/repo".to_string()]
    );
}

#[test]
fn from_yaml_strips_the_header() {
    let reg = widget_registry();
    let mut fs = FileSet::new();
    fs.insert("/r/a.yml".to_string(), file(vec![("name", s("A"))]));
    let d = from_yaml(&reg, &fs, 0, "/r/a.yml").expect("loads");
    assert_eq!(d.content.get("name"), Some(&s("A")));
    assert_eq!(d.path, None);
    assert_eq!(d.absolute_paths, vec!["/r/a.yml".to_string()]);
}

#[test]
fn from_yaml_reports_missing_and_unreadable_files() {
    let reg = widget_registry();
    let mut fs = FileSet::new();
    fs.insert(
        "/r/bad.yml".to_string(),
        LoadedFile::Unreadable("bad indentation".to_string()),
    );
    match from_yaml(&reg, &fs, 0, "/r/nothing.yml") {
        Err(ConfigError::InvalidDocument { path, .. }) => assert_eq!(path, "/r/nothing.yml"),
        other => panic!("expected InvalidDocument, got {:?}", other),
    }
    match from_yaml(&reg, &fs, 0, "/r/bad.yml") {
        Err(ConfigError::InvalidDocument { cause, .. }) => {
            assert_eq!(cause, "bad indentation")
        }
        other => panic!("expected InvalidDocument, got {:?}", other),
    }
}

#[test]
fn from_yaml_rejects_a_wrong_header() {
    let reg = widget_registry();
    let mut fs = FileSet::new();
    fs.insert(
        "/r/a.yml".to_string(),
        LoadedFile::Parsed(dict(vec![("gadget", YcdValue::Dict(dict(vec![])))])),
    );
    match from_yaml(&reg, &fs, 0, "/r/a.yml") {
        Err(ConfigError::InvalidHeader { expected, .. }) => assert_eq!(expected, "widget"),
        other => panic!("expected InvalidHeader, got {:?}", other),
    }
}

#[test]
fn end_to_end_reference_resolution() {
    // a.yml refs /b; A's explicit name wins, color is inherited.
    let reg = widget_registry();
    let mut fs = FileSet::new();
    fs.insert(
        "/r/a.yml".to_string(),
        file(vec![("$ref", s("/b")), ("name", s("A"))]),
    );
    fs.insert(
        "/r/b.yml".to_string(),
        file(vec![("name", s("B")), ("color", s("red"))]),
    );
    let roots = vec!["/r".to_string()];
    let a = from_yaml(&reg, &fs, 0, "/r/a.yml").expect("loads");
    let resolved = resolve_and_merge_references(&reg, &fs, &roots, a).expect("resolves");
    assert_eq!(resolved.content.get("name"), Some(&s("A")));
    assert_eq!(resolved.content.get("color"), Some(&s("red")));
    assert!(resolved.content.get("$ref").is_none());
    assert!(resolved
        .absolute_paths
        .contains(&"/r/b.yml".to_string()));
}

#[test]
fn chain_resolution_matches_pairwise_merge() {
    // A $ref B $ref C resolved in one go agrees with merging C under B
    // and that under A.
    let reg = widget_registry();
    let mut fs = FileSet::new();
    fs.insert(
        "/r/a.yml".to_string(),
        file(vec![("$ref", s("/b")), ("x", s("fromA"))]),
    );
    fs.insert(
        "/r/b.yml".to_string(),
        file(vec![("$ref", s("/c")), ("x", s("fromB")), ("y", s("fromB"))]),
    );
    fs.insert(
        "/r/c.yml".to_string(),
        file(vec![("y", s("fromC")), ("z", s("fromC"))]),
    );
    let roots = vec!["/r".to_string()];
    let a = from_yaml(&reg, &fs, 0, "/r/a.yml").expect("loads");
    let resolved = resolve_and_merge(&reg, &fs, &roots, a).expect("resolves");
    assert_eq!(resolved.content.get("x"), Some(&s("fromA")));
    assert_eq!(resolved.content.get("y"), Some(&s("fromB")));
    assert_eq!(resolved.content.get("z"), Some(&s("fromC")));
    assert!(resolved.content.get("$ref").is_none());

    // The same outcome computed by explicit pairwise merges.
    let b = from_yaml(&reg, &fs, 0, "/r/b.yml").expect("loads");
    let c = from_yaml(&reg, &fs, 0, "/r/c.yml").expect("loads");
    let mut bc = configcrunch::merger::merge_documents(&b, &c);
    bc.content.remove_key("$ref");
    let a2 = from_yaml(&reg, &fs, 0, "/r/a.yml").expect("loads");
    let mut direct = configcrunch::merger::merge_documents(&a2, &bc);
    direct.content.remove_key("$ref");
    assert_eq!(resolved.content, direct.content);
}

#[test]
fn missing_reference_is_reported() {
    let reg = widget_registry();
    let mut fs = FileSet::new();
    fs.insert(
        "/r/a.yml".to_string(),
        file(vec![("$ref", s("/nowhere"))]),
    );
    let roots = vec!["/r".to_string()];
    let a = from_yaml(&reg, &fs, 0, "/r/a.yml").expect("loads");
    match resolve_and_merge(&reg, &fs, &roots, a) {
        Err(ConfigError::ReferencedDocumentNotFound {
            reference,
            requested_by,
        }) => {
            assert_eq!(reference, "/nowhere");
            assert_eq!(requested_by, Some("/r/a.yml".to_string()));
        }
        other => panic!("expected ReferencedDocumentNotFound, got {:?}", other),
    }
}

#[test]
fn reference_cycles_are_detected() {
    // x refs /y and y refs /x: a chain that revisits a path fails with
    // CircularDependency instead of looping.
    let reg = widget_registry();
    let mut fs = FileSet::new();
    fs.insert("/r/x.yml".to_string(), file(vec![("$ref", s("/y"))]));
    fs.insert("/r/y.yml".to_string(), file(vec![("$ref", s("/x"))]));
    let roots = vec!["/r".to_string()];
    let x = from_yaml(&reg, &fs, 0, "/r/x.yml").expect("loads");
    match resolve_and_merge(&reg, &fs, &roots, x) {
        Err(ConfigError::CircularDependency { .. }) => {}
        other => panic!("expected CircularDependency, got {:?}", other),
    }
}

#[test]
fn self_reference_is_detected() {
    let reg = widget_registry();
    let mut fs = FileSet::new();
    fs.insert("/r/x.yml".to_string(), file(vec![("$ref", s("/x"))]));
    let roots = vec!["/r".to_string()];
    let x = from_yaml(&reg, &fs, 0, "/r/x.yml").expect("loads");
    match resolve_and_merge(&reg, &fs, &roots, x) {
        Err(ConfigError::CircularDependency { path }) => assert_eq!(path, "/x"),
        other => panic!("expected CircularDependency, got {:?}", other),
    }
}

#[test]
fn document_construction_rejects_visited_paths() {
    let r = Document::new(
        Dict::new(),
        Some("/x".to_string()),
        vec!["/x".to_string()],
        Vec::new(),
        0,
    );
    match r {
        Err(ConfigError::CircularDependency { path }) => assert_eq!(path, "/x"),
        other => panic!("expected CircularDependency, got {:?}", other),
    }
}

#[test]
fn remove_valued_reference_is_left_alone() {
    let reg = widget_registry();
    let fs = FileSet::new();
    let roots = vec!["/r".to_string()];
    let d = from_dict(dict(vec![("$ref", s("$remove")), ("a", YcdValue::Int(1))]), 0);
    let resolved = resolve_and_merge(&reg, &fs, &roots, d).expect("no-op");
    assert_eq!(resolved.content.get("$ref"), Some(&s("$remove")));
}

#[test]
fn later_lookup_paths_override_earlier_ones() {
    let reg = widget_registry();
    let mut fs = FileSet::new();
    fs.insert("/one/b.yml".to_string(), file(vec![("v", s("one"))]));
    fs.insert("/two/b.yml".to_string(), file(vec![("v", s("two")), ("w", s("kept"))]));
    let roots = vec!["/one".to_string(), "/two".to_string()];
    let a = from_dict(dict(vec![("$ref", s("/b"))]), 0);
    let resolved = resolve_and_merge(&reg, &fs, &roots, a).expect("resolves");
    assert_eq!(resolved.content.get("v"), Some(&s("two")));
    assert_eq!(resolved.content.get("w"), Some(&s("kept")));
}

#[test]
fn yml_and_yaml_both_load_with_yaml_overriding() {
    let reg = widget_registry();
    let mut fs = FileSet::new();
    fs.insert("/r/b.yml".to_string(), file(vec![("v", s("yml")), ("only", s("a"))]));
    fs.insert("/r/b.yaml".to_string(), file(vec![("v", s("yaml"))]));
    let roots = vec!["/r".to_string()];
    let a = from_dict(dict(vec![("$ref", s("/b"))]), 0);
    let resolved = resolve_and_merge(&reg, &fs, &roots, a).expect("resolves");
    assert_eq!(resolved.content.get("v"), Some(&s("yaml")));
    assert_eq!(resolved.content.get("only"), Some(&s("a")));
}

#[test]
fn references_with_inner_dot_segments_normalize() {
    let reg = widget_registry();
    let mut fs = FileSet::new();
    fs.insert("/r/b.yml".to_string(), file(vec![("v", s("found"))]));
    let roots = vec!["/r".to_string()];
    let a = from_dict(dict(vec![("$ref", s("/sub/../b"))]), 0);
    let resolved = resolve_and_merge(&reg, &fs, &roots, a).expect("resolves");
    assert_eq!(resolved.content.get("v"), Some(&s("found")));
}

#[test]
fn load_multiple_merges_right_to_left() {
    let reg = widget_registry();
    let mut fs = FileSet::new();
    fs.insert("/r/a.yml".to_string(), file(vec![("v", s("a")), ("x", s("a"))]));
    fs.insert("/r/b.yml".to_string(), file(vec![("v", s("b"))]));
    let d = load_multiple_yml(
        &reg,
        &fs,
        0,
        &vec!["/r/a.yml".to_string(), "/r/b.yml".to_string()],
    )
    .expect("loads");
    // The later document takes the merge-target role, so its scalar wins.
    assert_eq!(d.content.get("v"), Some(&s("b")));
    assert_eq!(d.content.get("x"), Some(&s("a")));
    match load_multiple_yml(&reg, &fs, 0, &Vec::new()) {
        Err(ConfigError::PathError { .. }) => {}
        other => panic!("expected PathError, got {:?}", other),
    }
}

#[test]
fn subdocuments_are_materialized_and_named() {
    let mut reg = TypeRegistry::new();
    let inner = reg.register(doc_type_def("inner", Vec::new()));
    let outer = reg.register(doc_type_def(
        "outer",
        vec![subdoc_spec("widgets[]", inner), subdoc_spec("single", inner)],
    ));
    let fs = FileSet::new();
    let roots: Vec<String> = Vec::new();
    let d = from_dict(
        dict(vec![
            (
                "widgets",
                YcdValue::Dict(dict(vec![
                    ("w1", YcdValue::Dict(dict(vec![("k", s("v1"))]))),
                    ("w2", YcdValue::Dict(dict(vec![("k", s("v2"))]))),
                ])),
            ),
            ("single", YcdValue::Dict(dict(vec![("k", s("v3"))]))),
        ]),
        outer,
    );
    let resolved = resolve_and_merge_references(&reg, &fs, &roots, d).expect("resolves");
    match resolved.content.get("widgets") {
        Some(YcdValue::Dict(ws)) => {
            match ws.get("w1") {
                Some(YcdValue::Doc(b)) => {
                    assert_eq!(b.type_id, inner);
                    assert_eq!(b.content.get("k"), Some(&s("v1")));
                    assert_eq!(b.content.get("$name"), Some(&s("w1")));
                }
                other => panic!("expected a document, got {:?}", other),
            }
            match ws.get("w2") {
                Some(YcdValue::Doc(b)) => {
                    assert_eq!(b.content.get("$name"), Some(&s("w2")));
                }
                other => panic!("expected a document, got {:?}", other),
            }
        }
        other => panic!("expected a dict, got {:?}", other),
    }
    match resolved.content.get("single") {
        Some(YcdValue::Doc(b)) => {
            assert_eq!(b.content.get("k"), Some(&s("v3")));
            assert!(b.content.get("$name").is_none());
        }
        other => panic!("expected a document, got {:?}", other),
    }
}

#[test]
fn subdocument_path_errors_are_reported() {
    let mut reg = TypeRegistry::new();
    let inner = reg.register(doc_type_def("inner", Vec::new()));
    let outer = reg.register(doc_type_def("outer", vec![subdoc_spec("a/b", inner)]));
    let fs = FileSet::new();
    let roots: Vec<String> = Vec::new();
    // The intermediate key "a" holds a scalar, not a mapping.
    let d = from_dict(dict(vec![("a", s("scalar"))]), outer);
    match resolve_and_merge_references(&reg, &fs, &roots, d) {
        Err(ConfigError::PathError { .. }) => {}
        other => panic!("expected PathError, got {:?}", other),
    }
}

#[test]
fn absent_subdocument_key_is_a_no_op() {
    let mut reg = TypeRegistry::new();
    let inner = reg.register(doc_type_def("inner", Vec::new()));
    let outer = reg.register(doc_type_def("outer", vec![subdoc_spec("missing", inner)]));
    let fs = FileSet::new();
    let roots: Vec<String> = Vec::new();
    let d = from_dict(dict(vec![("other", s("x"))]), outer);
    let resolved = resolve_and_merge_references(&reg, &fs, &roots, d).expect("resolves");
    assert_eq!(resolved.content.get("other"), Some(&s("x")));
}

#[test]
fn unknown_type_handles_are_rejected() {
    let reg = widget_registry();
    let fs = FileSet::new();
    match from_yaml(&reg, &fs, 99, "/r/a.yml") {
        Err(ConfigError::UnknownType { type_id }) => assert_eq!(type_id, 99),
        other => panic!("expected UnknownType, got {:?}", other),
    }
}

#[test]
fn invalid_remove_in_resolved_content_is_rejected() {
    let reg = widget_registry();
    let fs = FileSet::new();
    let roots: Vec<String> = Vec::new();
    let d = from_dict(
        dict(vec![("l", YcdValue::List(vec![s("$remove")]))]),
        0,
    );
    match resolve_and_merge_references(&reg, &fs, &roots, d) {
        Err(ConfigError::InvalidRemove) => {}
        other => panic!("expected InvalidRemove, got {:?}", other),
    }
}
