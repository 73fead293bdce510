use md_variables::digest::{calculate_file_hash, record_digest, MAX_HASHED_SIZE};
use md_variables::{FileHashInfo, ParseError, Variable, VariableProcessor, VariableSet};

fn var(name: &str, value: &str) -> Variable {
    Variable { name: name.to_string(), value: value.to_string() }
}

fn sorted(vars: Vec<Variable>) -> Vec<(String, String)> {
    let mut out: Vec<(String, String)> = vars.into_iter().map(|v| (v.name, v.value)).collect();
    out.sort();
    out
}

#[test]
fn new_store_is_empty() {
    let store = VariableProcessor::new();
    assert!(store.get_all_global_variables().is_empty());
    assert_eq!(store.get_global_variable("a"), None);
    assert_eq!(store.get_global_variable(""), None);
}

#[test]
fn set_inserts_and_overwrites() {
    let mut store = VariableProcessor::new();
    store.set_global_variable("a".to_string(), "1".to_string());
    store.set_global_variable("b".to_string(), "2".to_string());
    assert_eq!(store.get_global_variable("a"), Some("1".to_string()));
    store.set_global_variable("a".to_string(), "3".to_string());
    assert_eq!(store.get_global_variable("a"), Some("3".to_string()));
    assert_eq!(store.get_global_variable("b"), Some("2".to_string()));
    assert_eq!(store.get_global_variable("c"), None);
    let all = sorted(store.get_all_global_variables());
    assert_eq!(all, vec![("a".to_string(), "3".to_string()), ("b".to_string(), "2".to_string())]);
}

#[test]
fn snapshot_is_a_copy() {
    let mut store = VariableProcessor::new();
    store.set_global_variable("a".to_string(), "1".to_string());
    let snapshot = store.get_all_global_variables();
    store.set_global_variable("a".to_string(), "2".to_string());
    assert_eq!(sorted(snapshot), vec![("a".to_string(), "1".to_string())]);
}

#[test]
fn loading_sets_each_entry_in_order() {
    let mut store = VariableProcessor::new();
    store.set_global_variable("keep".to_string(), "k".to_string());
    store.set_global_variable("a".to_string(), "old".to_string());
    let set = VariableSet { variables: vec![var("a", "1"), var("b", "2"), var("a", "3")] };
    assert!(store.load_variables_from_yaml(Ok(set)).is_ok());
    assert_eq!(store.get_global_variable("a"), Some("3".to_string()));
    assert_eq!(store.get_global_variable("b"), Some("2".to_string()));
    assert_eq!(store.get_global_variable("keep"), Some("k".to_string()));
    assert_eq!(store.get_all_global_variables().len(), 3);
}

#[test]
fn malformed_payload_changes_nothing() {
    let mut store = VariableProcessor::new();
    store.set_global_variable("a".to_string(), "1".to_string());
    let failure = ParseError { message: "variables: expected a sequence".to_string() };
    let result = store.load_variables_from_yaml(Err(failure));
    match result {
        Err(e) => assert_eq!(e.message, "variables: expected a sequence"),
        Ok(()) => panic!("a malformed payload was accepted"),
    }
    assert_eq!(sorted(store.get_all_global_variables()), vec![("a".to_string(), "1".to_string())]);
}

#[test]
fn export_then_import_gives_an_equal_store() {
    let mut store = VariableProcessor::new();
    store.set_global_variable("b".to_string(), "2".to_string());
    store.set_global_variable("a".to_string(), "1".to_string());
    store.set_global_variable("b".to_string(), "{{a}}: x".to_string());
    store.set_global_variable("".to_string(), "".to_string());
    let exported = store.export_variables_to_yaml();
    assert_eq!(exported.variables.len(), 3);
    let mut fresh = VariableProcessor::new();
    assert!(fresh.load_variables_from_yaml(Ok(exported)).is_ok());
    assert_eq!(sorted(fresh.get_all_global_variables()), sorted(store.get_all_global_variables()));
}

#[test]
fn document_is_expanded_after_seeding_the_store() {
    let mut store = VariableProcessor::new();
    store.set_global_variable("who".to_string(), "nobody".to_string());
    let seed = vec![var("who", "world"), var("greeting", "hello")];
    let out = store.process_markdown("<!-- @var mark: ! -->\n{{greeting}}, {{who}}{{mark}}", seed);
    assert_eq!(out, "hello, world!");
    assert_eq!(store.get_global_variable("who"), Some("world".to_string()));
    assert_eq!(store.get_global_variable("mark"), None);
}

#[test]
fn content_within_the_limit_is_digested() {
    let info: FileHashInfo = calculate_file_hash("abc", 17, 3);
    assert_eq!(info.hash, "ba7816bf8f01cfea414140de5dae2223b00361a396177a9cb410ff61f20015ad");
    assert_eq!(info.modified_time, 17);
    assert_eq!(info.file_size, 3);
    let empty = calculate_file_hash("", 0, 0);
    assert_eq!(empty.hash, "e3b0c44298fc1c149afbf4c8996fb92427ae41e4649b934ca495991b7852b855");
}

#[test]
fn content_above_the_limit_is_not_digested() {
    assert_eq!(MAX_HASHED_SIZE, 10 * 1024 * 1024);
    let at_limit = calculate_file_hash("abc", 1, 10 * 1024 * 1024);
    assert_eq!(at_limit.hash, "ba7816bf8f01cfea414140de5dae2223b00361a396177a9cb410ff61f20015ad");
    let above = calculate_file_hash("abc", 2, 10 * 1024 * 1024 + 1);
    assert_eq!(above.hash, "large_file");
    assert_eq!(above.modified_time, 2);
    assert_eq!(above.file_size, 10 * 1024 * 1024 + 1);
}

#[test]
fn digest_is_recorded_within_the_limit_only() {
    let kept = record_digest("00ff".to_string(), 5, 10 * 1024 * 1024);
    assert_eq!(kept.hash, "00ff");
    assert_eq!(kept.modified_time, 5);
    assert_eq!(kept.file_size, 10 * 1024 * 1024);
    let marked = record_digest("00ff".to_string(), 6, 10 * 1024 * 1024 + 1);
    assert_eq!(marked.hash, "large_file");
    assert_eq!(marked.modified_time, 6);
    let copy = marked.clone();
    assert_eq!(copy.hash, marked.hash);
    assert_eq!(copy.file_size, marked.file_size);
}
