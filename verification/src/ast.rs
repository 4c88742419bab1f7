//! The syntax tree of a Nix document as the server sees it: nodes with the
//! source range they cover, and the search for the nodes at a position.

use vstd::prelude::*;

verus! {

/// A position in a document: zero-based line and column.
#[derive(Clone, Copy, Debug, PartialEq, Eq, Structural)]
pub struct Location {
    pub line: usize,
    pub column: usize,
}

/// `a` comes at or before `b` in the document.
pub open spec fn at_or_before(a: Location, b: Location) -> bool {
    a.line < b.line || (a.line == b.line && a.column <= b.column)
}

/// The part of a document from `begin` to `end`, both included.
#[derive(Clone, Copy, Debug, PartialEq, Eq, Structural)]
pub struct LocationRange {
    pub begin: Location,
    pub end: Location,
}

impl LocationRange {
    pub open spec fn contains(self, pos: Location) -> bool {
        at_or_before(self.begin, pos) && at_or_before(pos, self.end)
    }

    /// Whether `pos` lies in the range.
    pub fn in_range(&self, pos: &Location) -> (inside: bool)
        ensures
            inside == self.contains(*pos),
    {
        let after_begin = self.begin.line < pos.line || (self.begin.line == pos.line
            && self.begin.column <= pos.column);
        let before_end = pos.line < self.end.line || (pos.line == self.end.line && pos.column
            <= self.end.column);
        after_begin && before_end
    }
}

/// A range holds a position exactly when the position lies between its
/// begin and its end, both included, in document order: line first, then
/// column. A position on an earlier line than the begin, or a later line
/// than the end, is never held.
pub proof fn law_range_holds_positions_between_its_ends(range: LocationRange, pos: Location)
    ensures
        range.contains(pos) == ((range.begin.line < pos.line || (range.begin.line == pos.line
            && range.begin.column <= pos.column)) && (pos.line < range.end.line || (pos.line
            == range.end.line && pos.column <= range.end.column))),
        pos.line < range.begin.line ==> !range.contains(pos),
        pos.line > range.end.line ==> !range.contains(pos),
        range.begin.line < pos.line < range.end.line ==> range.contains(pos),
{
}

/// A syntax node: the range of the document it covers, where that range
/// could be computed, and its child nodes in document order.
pub struct NixASTNode {
    pub location: Option<LocationRange>,
    pub children: Vec<NixASTNode>,
}

/// The nodes at `pos` in the tree under `node`: `None` where the range of
/// `node` is unknown or does not hold `pos`; otherwise the nodes at `pos`
/// under each child in turn, then `node` itself.
pub open spec fn nodes_at<'a>(node: &'a NixASTNode, pos: Location) -> Option<Seq<&'a NixASTNode>>
    decreases node, node.children@.len() + 1,
{
    match node.location {
        Some(range) => if range.contains(pos) {
            Some(children_nodes_at(node, pos, node.children@.len() as int).push(node))
        } else {
            None
        },
        None => None,
    }
}

/// The nodes at `pos` under the first `k` children of `parent`, a child
/// that yields `None` adding nothing.
pub open spec fn children_nodes_at<'a>(parent: &'a NixASTNode, pos: Location, k: int) -> Seq<&'a NixASTNode>
    decreases parent, k,
{
    if k <= 0 || k > parent.children@.len() {
        Seq::empty()
    } else {
        let before = children_nodes_at(parent, pos, k - 1);
        match nodes_at(&parent.children@[k - 1], pos) {
            Some(found) => before + found,
            None => before,
        }
    }
}

/// The range of `node` is known and holds `pos`.
pub open spec fn covers(node: &NixASTNode, pos: Location) -> bool {
    node.location matches Some(range) && range.contains(pos)
}

/// Every node found at a position covers that position, and the node the
/// search started from is found last.
pub proof fn law_found_nodes_cover_position(node: &NixASTNode, pos: Location)
    ensures
        nodes_at(node, pos) matches Some(found) ==> {
            &&& found.len() >= 1
            &&& found.last() == node
            &&& forall|i: int| 0 <= i < found.len() ==> covers(#[trigger] found[i], pos)
        },
        nodes_at(node, pos) is Some <==> covers(node, pos),
    decreases node, node.children@.len() + 1,
{
    if covers(node, pos) {
        let before = children_nodes_at(node, pos, node.children@.len() as int);
        lemma_children_found_cover_position(node, pos, node.children@.len() as int);
        let found = before.push(node);
        assert forall|i: int| 0 <= i < found.len() implies covers(#[trigger] found[i], pos) by {
            if i < before.len() {
                assert(found[i] == before[i]);
            }
        }
    }
}

proof fn lemma_children_found_cover_position(parent: &NixASTNode, pos: Location, k: int)
    ensures
        forall|i: int|
            0 <= i < children_nodes_at(parent, pos, k).len() ==> covers(
                #[trigger] children_nodes_at(parent, pos, k)[i],
                pos,
            ),
    decreases parent, k,
{
    if 0 < k <= parent.children@.len() {
        lemma_children_found_cover_position(parent, pos, k - 1);
        assert(decreases_to!(parent => parent.children@[k - 1]));
        law_found_nodes_cover_position(&parent.children@[k - 1], pos);
        let before = children_nodes_at(parent, pos, k - 1);
        match nodes_at(&parent.children@[k - 1], pos) {
            Some(found) => {
                assert forall|i: int|
                    0 <= i < (before + found).len() implies covers(
                    #[trigger] (before + found)[i],
                    pos,
                ) by {
                    if i >= before.len() {
                        assert((before + found)[i] == found[i - before.len()]);
                    }
                }
            },
            None => {},
        }
    }
}

/// A node without children is found alone, where it covers the position.
pub proof fn law_leaf_found_alone(node: &NixASTNode, pos: Location)
    requires
        node.children@.len() == 0,
    ensures
        covers(node, pos) ==> nodes_at(node, pos) == Some(seq![node]),
        !covers(node, pos) ==> nodes_at(node, pos) is None,
{
    if covers(node, pos) {
        assert(children_nodes_at(node, pos, 0) =~= Seq::<&NixASTNode>::empty());
        assert(Seq::<&NixASTNode>::empty().push(node) =~= seq![node]);
    }
}

proof fn lemma_children_prefix<'a>(n1: &'a NixASTNode, n2: &'a NixASTNode, pos: Location, k: int)
    requires
        0 <= k <= n1.children@.len() <= n2.children@.len(),
        forall|i: int| 0 <= i < n1.children@.len() ==> #[trigger] n2.children@[i] == n1.children@[i],
    ensures
        children_nodes_at(n1, pos, k) == children_nodes_at(n2, pos, k),
    decreases k,
{
    if k > 0 {
        lemma_children_prefix(n1, n2, pos, k - 1);
        assert(n2.children@[k - 1] == n1.children@[k - 1]);
    }
}

/// A further child adds the nodes found under it after those found under
/// the earlier children and before the node itself; a child that does not
/// cover the position adds nothing.
pub proof fn law_added_child_found_before_parent<'a>(
    n1: &'a NixASTNode,
    n2: &'a NixASTNode,
    child: &'a NixASTNode,
    pos: Location,
)
    requires
        n2.location == n1.location,
        n2.children@ == n1.children@.push(*child),
        covers(n1, pos),
    ensures
        nodes_at(n2, pos) == Some(
            nodes_at(n1, pos).unwrap().drop_last() + match nodes_at(child, pos) {
                Some(found) => found,
                None => Seq::<&'a NixASTNode>::empty(),
            }.push(n2),
        ),
{
    let k = n1.children@.len() as int;
    assert forall|i: int| 0 <= i < n1.children@.len() implies #[trigger] n2.children@[i]
        == n1.children@[i] by {
        assert(n2.children@[i] == n1.children@.push(*child)[i]);
    }
    lemma_children_prefix(n1, n2, pos, k);
    assert(n2.children@[k] == *child);
    let before = children_nodes_at(n1, pos, k);
    assert(nodes_at(n1, pos).unwrap().drop_last() =~= before);
    match nodes_at(child, pos) {
        Some(found) => {
            assert((before + found).push(n2) =~= before + found.push(n2));
        },
        None => {
            assert(before.push(n2) =~= before + Seq::<&'a NixASTNode>::empty().push(n2));
        },
    }
}

impl NixASTNode {
    /// The range of the document the node covers.
    pub fn get_location(&self) -> (range: Option<LocationRange>)
        ensures
            range == self.location,
    {
        self.location
    }

    /// The nodes at `pos`, innermost first and this node last, or `None`
    /// where this node's range is unknown or does not hold `pos`.
    pub fn get_node_at_pos<'a>(&'a self, pos: &Location) -> (found: Option<Vec<&'a NixASTNode>>)
        ensures
            match found {
                Some(v) => nodes_at(self, *pos) == Some(v@),
                None => nodes_at(self, *pos) is None,
            },
        decreases self,
    {
        let range = match self.get_location() {
            Some(range) => range,
            None => {
                return None;
            },
        };
        if !range.in_range(pos) {
            return None;
        }
        let mut children_in_range: Vec<&'a NixASTNode> = Vec::new();
        let n = self.children.len();
        for i in 0..n
            invariant
                n == self.children@.len(),
                children_in_range@ == children_nodes_at(self, *pos, i as int),
        {
            let child: &'a NixASTNode = &self.children[i];
            assert(decreases_to!(self => self.children@[i as int]));
            match child.get_node_at_pos(pos) {
                Some(mut inner) => {
                    children_in_range.append(&mut inner);
                },
                None => {},
            }
        }
        children_in_range.push(self);
        Some(children_in_range)
    }
}

} // verus!
