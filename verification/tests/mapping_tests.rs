use std::collections::VecDeque;

use nix_lsp::mapping::{
    classify_value, field_completion_items, package_entry_for, value_path, Candidate,
    CompletionKind, NixInputsMapping, NixInputsPrimeMapping, NixLibMapping, NixMapping,
    NixSelfMapping, NixSelfPrimeMapping, NixValueType, NixpkgMapping, ValueProbe,
};

fn deque(names: &[&str]) -> VecDeque<String> {
    names.iter().map(|s| s.to_string()).collect()
}

fn strings(names: &VecDeque<String>) -> Vec<&str> {
    names.iter().map(|s| s.as_str()).collect()
}

fn probe(value_type: NixValueType, has_functor: bool) -> Option<ValueProbe> {
    Some(ValueProbe { value_type, has_functor })
}

fn candidate(name: &str, probe: Option<ValueProbe>) -> Candidate {
    Candidate { name: name.to_string(), probe }
}

#[test]
fn nixpkgs_mapping_appends_legacy_packages_path() {
    let mut names = deque(&["hello"]);
    NixpkgMapping.map_names(&mut names);
    assert_eq!(
        strings(&names),
        vec!["hello", "inputs", "nixpkgs", "legacyPackages", "x86_64-linux"]
    );
}

#[test]
fn nixpkgs_mapping_on_empty_path() {
    let mut names = deque(&[]);
    NixpkgMapping.map_names(&mut names);
    assert_eq!(strings(&names), vec!["inputs", "nixpkgs", "legacyPackages", "x86_64-linux"]);
}

#[test]
fn lib_mapping_appends_lib_after_packages_path() {
    let mut names = deque(&["strings"]);
    NixLibMapping.map_names(&mut names);
    assert_eq!(
        strings(&names),
        vec!["strings", "inputs", "nixpkgs", "legacyPackages", "x86_64-linux", "lib"]
    );
}

#[test]
fn inputs_mapping_appends_input() {
    let mut names = deque(&["nixpkgs"]);
    NixInputsMapping.map_names(&mut names);
    assert_eq!(strings(&names), vec!["nixpkgs", "input"]);
}

#[test]
fn inputs_prime_mapping_inserts_system_after_output() {
    let mut names = deque(&["nixpkgs", "packages", "hello"]);
    NixInputsPrimeMapping.map_names(&mut names);
    assert_eq!(
        strings(&names),
        vec!["inputs", "nixpkgs", "packages", "x86_64-linux", "hello"]
    );
}

#[test]
fn inputs_prime_mapping_with_two_names_appends_system() {
    let mut names = deque(&["nixpkgs", "packages"]);
    NixInputsPrimeMapping.map_names(&mut names);
    assert_eq!(strings(&names), vec!["inputs", "nixpkgs", "packages", "x86_64-linux"]);
}

#[test]
fn inputs_prime_mapping_with_one_name_only_prefixes() {
    let mut names = deque(&["nixpkgs"]);
    NixInputsPrimeMapping.map_names(&mut names);
    assert_eq!(strings(&names), vec!["inputs", "nixpkgs"]);
}

#[test]
fn self_prime_mapping_inserts_system_after_output() {
    let mut names = deque(&["packages", "default"]);
    NixSelfPrimeMapping.map_names(&mut names);
    assert_eq!(strings(&names), vec!["packages", "x86_64-linux", "default"]);
}

#[test]
fn self_prime_mapping_leaves_empty_path() {
    let mut names = deque(&[]);
    NixSelfPrimeMapping.map_names(&mut names);
    assert!(names.is_empty());
}

#[test]
fn self_mapping_leaves_names() {
    let mut names = deque(&["packages", "x86_64-linux"]);
    NixSelfMapping.map_names(&mut names);
    assert_eq!(strings(&names), vec!["packages", "x86_64-linux"]);
}

#[test]
fn functions_and_functors_classify_as_functions() {
    assert_eq!(classify_value(probe(NixValueType::Function, false).unwrap()), CompletionKind::Function);
    assert_eq!(classify_value(probe(NixValueType::AttrSet, true).unwrap()), CompletionKind::Function);
    assert_eq!(classify_value(probe(NixValueType::AttrSet, false).unwrap()), CompletionKind::Field);
    assert_eq!(classify_value(probe(NixValueType::String, true).unwrap()), CompletionKind::Field);
}

#[test]
fn package_entry_carries_priority_and_label() {
    let entry = package_entry_for(&"hello".to_string(), probe(NixValueType::Function, false).unwrap());
    assert_eq!(entry.label, "hello");
    assert_eq!(entry.kind, CompletionKind::Function);
    assert_eq!(entry.sort_text.as_deref(), Some("0000_hello"));
    let entry = package_entry_for(&"version".to_string(), probe(NixValueType::String, false).unwrap());
    assert_eq!(entry.kind, CompletionKind::Field);
    assert_eq!(entry.sort_text.as_deref(), Some("9999_version"));
}

#[test]
fn package_items_skip_values_that_failed() {
    let candidates = vec![
        candidate("hello", probe(NixValueType::AttrSet, false)),
        candidate("renamed", None),
        candidate("callPackage", probe(NixValueType::Function, false)),
        candidate("override", probe(NixValueType::AttrSet, true)),
    ];
    let items = NixpkgMapping.completion_item(&candidates);
    let labels: Vec<&str> = items.iter().map(|e| e.label.as_str()).collect();
    assert_eq!(labels, vec!["hello", "callPackage", "override"]);
    let kinds: Vec<CompletionKind> = items.iter().map(|e| e.kind).collect();
    assert_eq!(
        kinds,
        vec![CompletionKind::Field, CompletionKind::Function, CompletionKind::Function]
    );
    let sorts: Vec<&str> = items.iter().map(|e| e.sort_text.as_deref().unwrap()).collect();
    assert_eq!(sorts, vec!["9999_hello", "0000_callPackage", "0000_override"]);
}

#[test]
fn package_items_functions_sort_first() {
    let candidates = vec![
        candidate("a", probe(NixValueType::Int, false)),
        candidate("z", probe(NixValueType::Function, false)),
    ];
    let items = NixpkgMapping.completion_item(&candidates);
    let field = items[0].sort_text.clone().unwrap();
    let function = items[1].sort_text.clone().unwrap();
    assert!(function < field);
}

#[test]
fn package_items_of_same_kind_sort_by_label() {
    let candidates = vec![
        candidate("zlib", probe(NixValueType::AttrSet, false)),
        candidate("bash", probe(NixValueType::AttrSet, false)),
    ];
    let items = NixpkgMapping.completion_item(&candidates);
    assert!(items[1].sort_text < items[0].sort_text);
    assert!(items[1].label < items[0].label);
}

#[test]
fn field_items_keep_every_name() {
    let candidates = vec![candidate("nixpkgs", None), candidate("flake-utils", None)];
    for items in [
        field_completion_items(&candidates),
        NixLibMapping.completion_item(&candidates),
        NixInputsMapping.completion_item(&candidates),
        NixInputsPrimeMapping.completion_item(&candidates),
        NixSelfMapping.completion_item(&candidates),
        NixSelfPrimeMapping.completion_item(&candidates),
    ] {
        let labels: Vec<&str> = items.iter().map(|e| e.label.as_str()).collect();
        assert_eq!(labels, vec!["nixpkgs", "flake-utils"]);
        assert!(items.iter().all(|e| e.kind == CompletionKind::Field && e.sort_text.is_none()));
    }
}

#[test]
fn field_items_ignore_probes() {
    let candidates = vec![candidate("f", probe(NixValueType::Function, false))];
    let items = NixSelfMapping.completion_item(&candidates);
    assert_eq!(items.len(), 1);
    assert_eq!(items[0].kind, CompletionKind::Field);
}

#[test]
fn value_path_appends_value() {
    let names = vec!["inputs".to_string(), "nixpkgs".to_string()];
    let path = value_path(&names, &"hello".to_string());
    assert_eq!(path, vec!["inputs", "nixpkgs", "hello"]);
}

#[test]
fn value_path_of_empty_names() {
    let path = value_path(&vec![], &"hello".to_string());
    assert_eq!(path, vec!["hello"]);
}
