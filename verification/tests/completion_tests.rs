use std::collections::VecDeque;

use nix_lsp::mapping::NixMapping;
use nix_lsp::completion::{
    attribute_path, CompletionError, MappingKind, NixCompletion, NodeType, PathNode,
};

fn node(kind: NodeType, name: &str) -> PathNode {
    PathNode { kind, name: Some(name.to_string()) }
}

fn unnamed(kind: NodeType) -> PathNode {
    PathNode { kind, name: None }
}

fn path(walk: &Vec<PathNode>) -> Vec<String> {
    attribute_path(walk).ok().unwrap().into_iter().collect()
}

#[test]
fn cursor_on_identifier_skips_it() {
    // `pkgs.hel|`
    let walk = vec![
        node(NodeType::Identifier, "hel"),
        node(NodeType::Dot, "."),
        node(NodeType::Identifier, "pkgs"),
        unnamed(NodeType::Other),
    ];
    assert_eq!(path(&walk), vec!["pkgs"]);
}

#[test]
fn cursor_after_dot_reads_whole_path() {
    // `inputs'.nixpkgs.packages.|`
    let walk = vec![
        node(NodeType::Dot, "."),
        node(NodeType::Identifier, "packages"),
        node(NodeType::Attrpath, "nixpkgs.packages"),
        node(NodeType::Dot, "."),
        node(NodeType::Identifier, "nixpkgs"),
        node(NodeType::Dot, "."),
        node(NodeType::Identifier, "inputs'"),
        node(NodeType::Other, "inputs'.nixpkgs.packages"),
        node(NodeType::Identifier, "before"),
    ];
    assert_eq!(path(&walk), vec!["inputs'", "nixpkgs", "packages"]);
}

#[test]
fn cursor_on_other_node_starts_there() {
    let walk = vec![node(NodeType::Other, "lib"), node(NodeType::Identifier, "x")];
    assert_eq!(path(&walk), vec!["x", "lib"]);
}

#[test]
fn empty_walk_has_no_node() {
    assert!(matches!(attribute_path(&vec![]), Err(CompletionError::NodeNotFound)));
}

#[test]
fn no_identifier_before_cursor() {
    let walk = vec![node(NodeType::Dot, "."), node(NodeType::Attrpath, "a"), unnamed(NodeType::Other)];
    assert!(matches!(attribute_path(&walk), Err(CompletionError::NoParentLeft)));
    let walk = vec![node(NodeType::Identifier, "a")];
    assert!(matches!(attribute_path(&walk), Err(CompletionError::NoParentLeft)));
}

#[test]
fn unreadable_identifier_fails() {
    let walk = vec![
        node(NodeType::Dot, "."),
        node(NodeType::Identifier, "b"),
        node(NodeType::Dot, "."),
        unnamed(NodeType::Identifier),
    ];
    assert!(matches!(attribute_path(&walk), Err(CompletionError::NoNodeName)));
    let walk = vec![unnamed(NodeType::Other)];
    assert!(matches!(attribute_path(&walk), Err(CompletionError::NoNodeName)));
}

#[test]
fn unreadable_identifier_after_path_end_is_ignored() {
    let walk = vec![
        node(NodeType::Dot, "."),
        node(NodeType::Identifier, "pkgs"),
        unnamed(NodeType::Other),
        unnamed(NodeType::Identifier),
    ];
    assert_eq!(path(&walk), vec!["pkgs"]);
}

#[test]
fn lookup_knows_six_variables() {
    let completion = NixCompletion::new();
    let cases = [
        ("pkgs", MappingKind::Nixpkgs),
        ("lib", MappingKind::Lib),
        ("inputs", MappingKind::Inputs),
        ("inputs'", MappingKind::InputsPrime),
        ("self", MappingKind::SelfOutputs),
        ("self'", MappingKind::SelfPrime),
    ];
    for (name, kind) in cases {
        assert_eq!(completion.lookup(&name.to_string()), Some(kind));
    }
    assert_eq!(completion.lookup(&"builtins".to_string()), None);
    assert_eq!(completion.lookup(&"".to_string()), None);
}

#[test]
fn complete_path_for_packages() {
    let completion = NixCompletion::new();
    let walk = vec![
        node(NodeType::Dot, "."),
        node(NodeType::Identifier, "pkgs"),
        unnamed(NodeType::Other),
    ];
    let request = completion.complete_path(&walk).ok().unwrap();
    assert_eq!(request.mapping, MappingKind::Nixpkgs);
    assert_eq!(request.names, vec!["inputs", "nixpkgs", "legacyPackages", "x86_64-linux"]);
}

#[test]
fn complete_path_for_inputs_prime() {
    let completion = NixCompletion::new();
    let walk = vec![
        node(NodeType::Dot, "."),
        node(NodeType::Identifier, "packages"),
        node(NodeType::Dot, "."),
        node(NodeType::Identifier, "nixpkgs"),
        node(NodeType::Dot, "."),
        node(NodeType::Identifier, "inputs'"),
    ];
    let request = completion.complete_path(&walk).ok().unwrap();
    assert_eq!(request.mapping, MappingKind::InputsPrime);
    assert_eq!(request.names, vec!["inputs", "nixpkgs", "packages", "x86_64-linux"]);
}

#[test]
fn complete_path_for_self_prime() {
    let completion = NixCompletion::new();
    let walk = vec![
        node(NodeType::Dot, "."),
        node(NodeType::Identifier, "packages"),
        node(NodeType::Dot, "."),
        node(NodeType::Identifier, "self'"),
    ];
    let request = completion.complete_path(&walk).ok().unwrap();
    assert_eq!(request.mapping, MappingKind::SelfPrime);
    assert_eq!(request.names, vec!["packages", "x86_64-linux"]);
}

#[test]
fn complete_path_rejects_unknown_variable() {
    let completion = NixCompletion::new();
    let walk = vec![node(NodeType::Dot, "."), node(NodeType::Identifier, "builtins")];
    match completion.complete_path(&walk) {
        Err(CompletionError::UnsupportedVariable(name)) => assert_eq!(name, "builtins"),
        _ => panic!("expected an unsupported variable"),
    }
}

#[test]
fn complete_path_passes_path_errors_on() {
    let completion = NixCompletion::new();
    assert!(matches!(completion.complete_path(&vec![]), Err(CompletionError::NodeNotFound)));
    let walk = vec![node(NodeType::Identifier, "x")];
    assert!(matches!(completion.complete_path(&walk), Err(CompletionError::NoParentLeft)));
}

#[test]
fn mapping_keeps_typed_names_in_order() {
    let kinds = [
        MappingKind::Nixpkgs,
        MappingKind::Lib,
        MappingKind::Inputs,
        MappingKind::InputsPrime,
        MappingKind::SelfOutputs,
        MappingKind::SelfPrime,
    ];
    for kind in kinds {
        let typed = vec!["a".to_string(), "b".to_string(), "c".to_string()];
        let mut names: VecDeque<String> = typed.iter().cloned().collect();
        kind.map_names(&mut names);
        let mut rest = names.iter();
        for name in &typed {
            assert!(rest.any(|n| n == name));
        }
    }
}
