use rustdoc_index::catalog::{
    item_full_path, join_path, normalize_rustdoc_tree, CrateDocs, RawDocTree, RawItem, RawPath,
    SchemaError,
};
use rustdoc_index::tools::{
    default_num_results, rustdoc_crate_name, QueryDocumentationTool,
};

fn s(x: &str) -> String {
    x.to_string()
}

fn raw(id: &str, name: Option<&str>, docs: Option<&str>, kind: Option<&str>) -> RawItem {
    RawItem {
        id: s(id),
        name: name.map(s),
        docs: docs.map(s),
        kind: kind.map(s),
        is_stripped: false,
    }
}

fn raw_path(id: &str, segs: &[&str]) -> RawPath {
    RawPath { id: s(id), path: segs.iter().map(|x| Some(s(x))).collect() }
}

/// The tree that the documentation tool gives for a small crate with a
/// function, a struct and a module holding a function.
fn dummy_tree() -> RawDocTree {
    RawDocTree {
        root: Some(s("0")),
        index: Some(vec![
            raw("0", Some("my_test_crate"), None, Some("module")),
            raw("1", Some("hello"), Some("A test function"), Some("function")),
            raw("2", Some("TestStruct"), Some("A test struct"), Some("struct")),
            raw("3", Some("my_module"), None, Some("module")),
            raw("4", Some("goodbye"), Some("A function inside a module"), Some("function")),
        ]),
        paths: Some(vec![
            raw_path("0", &["my_test_crate"]),
            raw_path("1", &[]),
            raw_path("2", &[]),
            raw_path("3", &["my_module"]),
            raw_path("4", &["my_module"]),
        ]),
    }
}

fn find<'a>(docs: &'a CrateDocs, key: &str) -> Option<&'a rustdoc_index::catalog::DocItem> {
    docs.get(&s(key))
}

#[test]
fn test_generate_and_parse_rustdoc() {
    let crate_name = "my-test-crate";
    let name = rustdoc_crate_name(&Some(s(crate_name)), &s("ignored"));
    assert_eq!(name, crate_name.replace("-", "_"), "Crate name should match and be sanitized");

    let crate_docs = normalize_rustdoc_tree(&dummy_tree(), false).unwrap();
    assert_eq!(crate_docs.crate_name, crate_name.replace("-", "_"));

    let expected_hello_path = format!("{}::hello", crate_name.replace("-", "_"));
    let expected_struct_path = format!("{}::TestStruct", crate_name.replace("-", "_"));
    let expected_goodbye_path = format!("{}::my_module::goodbye", crate_name.replace("-", "_"));

    let hello_fn = find(&crate_docs, &expected_hello_path).expect("Should contain hello function");
    assert_eq!(hello_fn.name, "hello");
    assert_eq!(hello_fn.item_type, "function");
    assert_eq!(hello_fn.description.as_deref(), Some("A test function"));

    let test_struct = find(&crate_docs, &expected_struct_path).expect("Should contain TestStruct");
    assert_eq!(test_struct.name, "TestStruct");
    assert_eq!(test_struct.item_type, "struct");
    assert_eq!(test_struct.description.as_deref(), Some("A test struct"));

    let goodbye_fn = find(&crate_docs, &expected_goodbye_path)
        .expect("Should contain my_module::goodbye function");
    assert_eq!(goodbye_fn.name, "goodbye");
    assert_eq!(goodbye_fn.item_type, "function");
    assert_eq!(goodbye_fn.path, vec!["my_module"]);
    assert_eq!(goodbye_fn.description.as_deref(), Some("A function inside a module"));

    let expected_module_path = format!("{}::my_module", crate_name.replace("-", "_"));
    let module_item = find(&crate_docs, &expected_module_path).expect("module item");
    assert_eq!(module_item.name, "my_module");
    assert_eq!(module_item.item_type, "module");
}

#[test]
fn full_path_of_plain_item_joins_crate_path_and_name() {
    let r = item_full_path(&s("k"), &vec![s("a"), s("b")], &s("c"), &s("function"));
    assert_eq!(r, "k::a::b::c");
}

#[test]
fn full_path_of_module_does_not_repeat_its_name() {
    let r = item_full_path(&s("k"), &vec![s("a"), s("m")], &s("m"), &s("module"));
    assert_eq!(r, "k::a::m");
    let r = item_full_path(&s("k"), &vec![s("a")], &s("m"), &s("module"));
    assert_eq!(r, "k::a::m");
    // A non-module whose path ends in its name keeps both.
    let r = item_full_path(&s("k"), &vec![s("m")], &s("m"), &s("function"));
    assert_eq!(r, "k::m::m");
}

#[test]
fn join_path_edges() {
    assert_eq!(join_path(&vec![]), "");
    assert_eq!(join_path(&vec![s("k")]), "k");
    assert_eq!(join_path(&vec![s("k"), s("x")]), "k::x");
}

#[test]
fn missing_sections_are_schema_errors() {
    let mut t = dummy_tree();
    t.index = None;
    assert_eq!(normalize_rustdoc_tree(&t, false).err(), Some(SchemaError::MissingIndex));
    let mut t = dummy_tree();
    t.paths = None;
    assert_eq!(normalize_rustdoc_tree(&t, false).err(), Some(SchemaError::MissingPaths));
    let mut t = dummy_tree();
    t.root = None;
    assert_eq!(normalize_rustdoc_tree(&t, false).err(), Some(SchemaError::MissingRoot));
    let mut t = dummy_tree();
    t.root = Some(s("99"));
    assert_eq!(normalize_rustdoc_tree(&t, false).err(), Some(SchemaError::RootItemNotFound));
}

#[test]
fn nameless_items_dropped_and_defaults_applied() {
    let t = RawDocTree {
        root: Some(s("0")),
        index: Some(vec![
            raw("0", None, None, None),
            raw("1", None, Some("no name"), Some("function")),
            raw("2", Some("f"), Some("doc"), None),
        ]),
        paths: Some(vec![RawPath { id: s("2"), path: vec![Some(s("m")), None, Some(s("n"))] }]),
    };
    let docs = normalize_rustdoc_tree(&t, false).unwrap();
    assert_eq!(docs.crate_name, "unknown_crate");
    assert_eq!(docs.items.len(), 1);
    let f = &docs.items[0];
    assert_eq!(f.full_path_str, "unknown_crate::m::n::f");
    assert_eq!(f.item_type, "unknown");
    assert_eq!(f.path, vec![s("m"), s("n")]);
}

#[test]
fn later_record_replaces_earlier_under_same_path() {
    let t = RawDocTree {
        root: Some(s("0")),
        index: Some(vec![
            raw("0", Some("k"), None, Some("module")),
            raw("1", Some("f"), Some("first"), Some("function")),
            raw("2", Some("f"), Some("second"), Some("function")),
        ]),
        paths: Some(vec![]),
    };
    let docs = normalize_rustdoc_tree(&t, false).unwrap();
    assert_eq!(docs.items.len(), 2);
    let f = docs.get(&s("k::f")).unwrap();
    assert_eq!(f.id, "2");
    assert_eq!(f.description.as_deref(), Some("second"));
}

#[test]
fn stripped_items_kept_unless_skipped() {
    let mut t = dummy_tree();
    if let Some(index) = t.index.as_mut() {
        index[1].is_stripped = true;
    }
    let kept = normalize_rustdoc_tree(&t, false).unwrap();
    assert!(kept.get(&s("my_test_crate::hello")).is_some());
    let skipped = normalize_rustdoc_tree(&t, true).unwrap();
    assert!(skipped.get(&s("my_test_crate::hello")).is_none());
    assert!(skipped.get(&s("my_test_crate::TestStruct")).is_some());
}

#[test]
fn crate_name_falls_back_to_directory() {
    assert_eq!(rustdoc_crate_name(&None, &s("my-dir-name")), "my_dir_name");
    assert_eq!(rustdoc_crate_name(&Some(s("plain")), &s("x-y")), "plain");
}

#[test]
fn default_result_count_is_five() {
    assert_eq!(default_num_results(), Some(5));
    let q = QueryDocumentationTool {
        natural_language_query: s("q"),
        project_path: None,
        num_results: None,
    };
    assert_eq!(q.result_count(), 5);
    let q = QueryDocumentationTool {
        natural_language_query: s("q"),
        project_path: None,
        num_results: Some(2),
    };
    assert_eq!(q.result_count(), 2);
}
