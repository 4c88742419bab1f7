use nix_lsp::ast::{Location, LocationRange, NixASTNode};
use nix_lsp::flake_cache::flake_expression;

fn loc(line: usize, column: usize) -> Location {
    Location { line, column }
}

fn range(b: (usize, usize), e: (usize, usize)) -> Option<LocationRange> {
    Some(LocationRange { begin: loc(b.0, b.1), end: loc(e.0, e.1) })
}

fn leaf(r: Option<LocationRange>) -> NixASTNode {
    NixASTNode { location: r, children: vec![] }
}

#[test]
fn in_range_is_inclusive() {
    let r = LocationRange { begin: loc(1, 4), end: loc(3, 2) };
    assert!(r.in_range(&loc(1, 4)));
    assert!(r.in_range(&loc(3, 2)));
    assert!(r.in_range(&loc(2, 100)));
    assert!(!r.in_range(&loc(1, 3)));
    assert!(!r.in_range(&loc(3, 3)));
    assert!(!r.in_range(&loc(0, 9)));
}

#[test]
fn nodes_at_position_innermost_first() {
    let tree = NixASTNode {
        location: range((0, 0), (0, 20)),
        children: vec![
            leaf(range((0, 0), (0, 4))),
            NixASTNode {
                location: range((0, 5), (0, 12)),
                children: vec![leaf(range((0, 5), (0, 8))), leaf(range((0, 9), (0, 12)))],
            },
            leaf(None),
        ],
    };
    let found = tree.get_node_at_pos(&loc(0, 10)).unwrap();
    assert_eq!(found.len(), 3);
    assert!(std::ptr::eq(found[0], &tree.children[1].children[1]));
    assert!(std::ptr::eq(found[1], &tree.children[1]));
    assert!(std::ptr::eq(found[2], &tree));
    for node in &found {
        assert!(node.get_location().unwrap().in_range(&loc(0, 10)));
    }
}

#[test]
fn position_outside_root_finds_nothing() {
    let tree = NixASTNode { location: range((0, 0), (0, 3)), children: vec![leaf(range((0, 0), (0, 1)))] };
    assert!(tree.get_node_at_pos(&loc(1, 0)).is_none());
}

#[test]
fn unknown_root_location_finds_nothing() {
    let tree = leaf(None);
    assert!(tree.get_node_at_pos(&loc(0, 0)).is_none());
    assert!(tree.get_location().is_none());
}

#[test]
fn node_on_boundary_of_two_children_finds_both() {
    let tree = NixASTNode {
        location: range((0, 0), (0, 10)),
        children: vec![leaf(range((0, 0), (0, 5))), leaf(range((0, 5), (0, 10)))],
    };
    let found = tree.get_node_at_pos(&loc(0, 5)).unwrap();
    assert_eq!(found.len(), 3);
    assert!(std::ptr::eq(found[0], &tree.children[0]));
    assert!(std::ptr::eq(found[1], &tree.children[1]));
}

#[test]
fn flake_expression_uses_git_file_url() {
    assert_eq!(flake_expression("/home/me/project"), "builtins.getFlake git+file:///home/me/project");
    assert_eq!(flake_expression(""), "builtins.getFlake git+file://");
}
