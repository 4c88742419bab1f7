//! Completion of attribute paths: the path that ends at the cursor, the
//! variable it starts with, and the mapping that variable selects.

use std::collections::VecDeque;
use vstd::prelude::*;
use vstd::string::StringExecFns;
use crate::mapping::{
    Candidate, CandidateView, CompletionEntry, EntryView, NixInputsMapping, NixInputsPrimeMapping,
    NixLibMapping, NixMapping, NixSelfMapping, NixSelfPrimeMapping, NixpkgMapping,
};

verus! {

/// The mapping a variable selects.
#[derive(Clone, Copy, Debug, PartialEq, Eq, Structural)]
pub enum MappingKind {
    /// `pkgs`
    Nixpkgs,
    /// `lib`
    Lib,
    /// `inputs`
    Inputs,
    /// `inputs'`
    InputsPrime,
    /// `self`
    SelfOutputs,
    /// `self'`
    SelfPrime,
}

impl NixMapping for MappingKind {
    open spec fn mapped(&self, names: Seq<Seq<char>>) -> Seq<Seq<char>> {
        match *self {
            MappingKind::Nixpkgs => NixpkgMapping.mapped(names),
            MappingKind::Lib => NixLibMapping.mapped(names),
            MappingKind::Inputs => NixInputsMapping.mapped(names),
            MappingKind::InputsPrime => NixInputsPrimeMapping.mapped(names),
            MappingKind::SelfOutputs => NixSelfMapping.mapped(names),
            MappingKind::SelfPrime => NixSelfPrimeMapping.mapped(names),
        }
    }

    fn map_names(&self, names: &mut VecDeque<String>) {
        match *self {
            MappingKind::Nixpkgs => NixpkgMapping.map_names(names),
            MappingKind::Lib => NixLibMapping.map_names(names),
            MappingKind::Inputs => NixInputsMapping.map_names(names),
            MappingKind::InputsPrime => NixInputsPrimeMapping.map_names(names),
            MappingKind::SelfOutputs => NixSelfMapping.map_names(names),
            MappingKind::SelfPrime => NixSelfPrimeMapping.map_names(names),
        }
    }

    open spec fn entries(&self, candidates: Seq<CandidateView>) -> Seq<EntryView> {
        match *self {
            MappingKind::Nixpkgs => NixpkgMapping.entries(candidates),
            MappingKind::Lib => NixLibMapping.entries(candidates),
            MappingKind::Inputs => NixInputsMapping.entries(candidates),
            MappingKind::InputsPrime => NixInputsPrimeMapping.entries(candidates),
            MappingKind::SelfOutputs => NixSelfMapping.entries(candidates),
            MappingKind::SelfPrime => NixSelfPrimeMapping.entries(candidates),
        }
    }

    fn completion_item(&self, candidates: &Vec<Candidate>) -> (items: Vec<CompletionEntry>) {
        match *self {
            MappingKind::Nixpkgs => NixpkgMapping.completion_item(candidates),
            MappingKind::Lib => NixLibMapping.completion_item(candidates),
            MappingKind::Inputs => NixInputsMapping.completion_item(candidates),
            MappingKind::InputsPrime => NixInputsPrimeMapping.completion_item(candidates),
            MappingKind::SelfOutputs => NixSelfMapping.completion_item(candidates),
            MappingKind::SelfPrime => NixSelfPrimeMapping.completion_item(candidates),
        }
    }
}

/// The syntax node kinds that an attribute path is made of; every other
/// kind of node ends the path.
#[derive(Clone, Copy, Debug, PartialEq, Eq, Structural)]
pub enum NodeType {
    Identifier,
    Dot,
    Attrpath,
    Other,
}

/// One node of the walk back from the cursor: its kind, and its source text
/// where that could be read.
pub struct PathNode {
    pub kind: NodeType,
    pub name: Option<String>,
}

pub type PathNodeView = (NodeType, Option<Seq<char>>);

pub open spec fn name_view(name: Option<String>) -> Option<Seq<char>> {
    match name {
        Some(s) => Some(s@),
        None => None,
    }
}

impl DeepView for PathNode {
    type V = PathNodeView;

    open spec fn deep_view(&self) -> PathNodeView {
        (self.kind, name_view(self.name))
    }
}

/// Why no completion could be offered.
#[derive(Debug)]
pub enum CompletionError {
    /// No syntax node stands at the cursor.
    NodeNotFound,
    /// The walk back from the cursor reached the root before an identifier.
    NoParentLeft,
    /// The text of an identifier on the path could not be read.
    NoNodeName,
    /// The path starts with a variable that has no mapping.
    UnsupportedVariable(String),
}

pub open spec fn continues_path(kind: NodeType) -> bool {
    kind != NodeType::Other
}

/// The index of the first identifier at or after `j`.
pub open spec fn first_identifier_from(walk: Seq<PathNodeView>, j: int) -> Option<int>
    decreases walk.len() - j,
{
    if j >= walk.len() {
        None
    } else if walk[j].0 == NodeType::Identifier {
        Some(j)
    } else {
        first_identifier_from(walk, j + 1)
    }
}

/// The node the path is read back from: the node at the cursor, or, where
/// that node is itself part of a path being typed, the first identifier
/// before it.
pub open spec fn anchor_index(walk: Seq<PathNodeView>) -> Option<int> {
    if continues_path(walk[0].0) {
        first_identifier_from(walk, 1)
    } else {
        Some(0)
    }
}

/// The index of the first node at or after `j` that is not part of a path.
pub open spec fn path_end(walk: Seq<PathNodeView>, j: int) -> int
    decreases walk.len() - j,
{
    if j >= walk.len() || !continues_path(walk[j].0) {
        j
    } else {
        path_end(walk, j + 1)
    }
}

/// Every identifier in `walk[lo..hi]` has a readable name.
pub open spec fn names_readable(walk: Seq<PathNodeView>, lo: int, hi: int) -> bool {
    forall|k: int| lo <= k < hi && walk[k].0 == NodeType::Identifier ==> walk[k].1 is Some
}

/// The names of the identifiers in `walk[lo..hi]`, farthest first.
pub open spec fn identifiers_between(walk: Seq<PathNodeView>, lo: int, hi: int) -> Seq<Seq<char>>
    decreases hi - lo,
{
    if hi <= lo {
        Seq::empty()
    } else if walk[hi - 1].0 == NodeType::Identifier {
        seq![walk[hi - 1].1.unwrap()] + identifiers_between(walk, lo, hi - 1)
    } else {
        identifiers_between(walk, lo, hi - 1)
    }
}

/// The attribute path that ends before the cursor, outermost name first,
/// read from the walk back from the cursor to the root.
pub open spec fn attribute_path_of(walk: Seq<PathNodeView>) -> Result<Seq<Seq<char>>, CompletionError> {
    if walk.len() == 0 {
        Err(CompletionError::NodeNotFound)
    } else {
        match anchor_index(walk) {
            None => Err(CompletionError::NoParentLeft),
            Some(a) => {
                let end = path_end(walk, a + 1);
                if walk[a].1 is None || !names_readable(walk, a + 1, end) {
                    Err(CompletionError::NoNodeName)
                } else {
                    Ok(identifiers_between(walk, a + 1, end).push(walk[a].1.unwrap()))
                }
            },
        }
    }
}

proof fn lemma_path_end_after(walk: Seq<PathNodeView>, j: int)
    requires
        0 <= j,
    ensures
        j <= path_end(walk, j),
        j < walk.len() && continues_path(walk[j].0) ==> j < path_end(walk, j),
    decreases walk.len() - j,
{
    if j < walk.len() && continues_path(walk[j].0) {
        lemma_path_end_after(walk, j + 1);
    }
}

/// Reads the attribute path from the walk back from the cursor: `walk[0]`
/// is the node at the cursor and each further node the one before the
/// previous in the document, up to the root.
pub fn attribute_path(walk: &Vec<PathNode>) -> (result: Result<VecDeque<String>, CompletionError>)
    ensures
        match result {
            Ok(names) => attribute_path_of(walk.deep_view()) == Ok::<Seq<Seq<char>>, CompletionError>(names.deep_view()),
            Err(e) => attribute_path_of(walk.deep_view()) == Err::<Seq<Seq<char>>, CompletionError>(e),
        },
{
    let ghost w = walk.deep_view();
    let n = walk.len();
    if n == 0 {
        return Err(CompletionError::NodeNotFound);
    }
    assert(w[0] == walk@[0].deep_view());
    let mut anchor: usize = 0;
    if walk[0].kind != NodeType::Other {
        anchor = 1;
        while anchor < n && walk[anchor].kind != NodeType::Identifier
            invariant
                w == walk.deep_view(),
                n == walk.len(),
                1 <= anchor <= n,
                first_identifier_from(w, 1) == first_identifier_from(w, anchor as int),
            decreases n - anchor,
        {
            assert(w[anchor as int] == walk@[anchor as int].deep_view());
            anchor = anchor + 1;
        }
        if anchor == n {
            return Err(CompletionError::NoParentLeft);
        }
        assert(w[anchor as int] == walk@[anchor as int].deep_view());
    }
    assert(anchor_index(w) == Some(anchor as int));
    assert(w[anchor as int] == walk@[anchor as int].deep_view());
    let anchor_name = match &walk[anchor].name {
        Some(s) => s.clone(),
        None => {
            return Err(CompletionError::NoNodeName);
        },
    };
    let mut names: VecDeque<String> = VecDeque::new();
    names.push_front(anchor_name);
    assert(names.deep_view() =~= seq![w[anchor as int].1.unwrap()]);
    let lo = anchor + 1;
    let mut i = lo;
    while i < n && walk[i].kind != NodeType::Other
        invariant
            w == walk.deep_view(),
            n == walk.len(),
            anchor < lo <= i <= n,
            lo == anchor + 1,
            anchor_index(w) == Some(anchor as int),
            w[anchor as int].1 is Some,
            path_end(w, lo as int) == path_end(w, i as int),
            names_readable(w, lo as int, i as int),
            names.deep_view() == identifiers_between(w, lo as int, i as int).push(w[anchor as int].1.unwrap()),
        decreases n - i,
    {
        assert(w[i as int] == walk@[i as int].deep_view());
        if walk[i].kind == NodeType::Identifier {
            match &walk[i].name {
                Some(s) => {
                    let ghost before = names.deep_view();
                    names.push_front(s.clone());
                    assert(names.deep_view() =~= seq![s@] + before);
                    assert(identifiers_between(w, lo as int, i + 1) == seq![s@] + identifiers_between(w, lo as int, i as int));
                    assert(names.deep_view() =~= identifiers_between(w, lo as int, i + 1).push(w[anchor as int].1.unwrap()));
                },
                None => {
                    proof {
                        lemma_path_end_after(w, i as int);
                        assert(!names_readable(w, lo as int, path_end(w, lo as int)));
                    }
                    return Err(CompletionError::NoNodeName);
                },
            }
        } else {
            assert(identifiers_between(w, lo as int, i + 1) == identifiers_between(w, lo as int, i as int));
        }
        i = i + 1;
    }
    proof {
        if i < n {
            assert(w[i as int] == walk@[i as int].deep_view());
        }
        assert(path_end(w, i as int) == i);
    }
    Ok(names)
}

/// What each selectable mapping makes of the typed names, stated on the
/// mapping a variable selects: `pkgs` and `lib` append the packages path
/// (and `lib`), `inputs` appends `input`, `inputs'` puts `inputs` in front
/// and the system after the second typed name, `self'` puts the system
/// after the first typed name, `self` changes nothing.
pub proof fn law_selected_mapping_names(s: Seq<Seq<char>>)
    ensures
        MappingKind::Nixpkgs.mapped(s) == s + seq![
            "inputs"@,
            "nixpkgs"@,
            "legacyPackages"@,
            "x86_64-linux"@,
        ],
        MappingKind::Lib.mapped(s) == s + seq![
            "inputs"@,
            "nixpkgs"@,
            "legacyPackages"@,
            "x86_64-linux"@,
            "lib"@,
        ],
        MappingKind::Inputs.mapped(s) == s + seq!["input"@],
        s.len() >= 2 ==> MappingKind::InputsPrime.mapped(s) == seq![
            "inputs"@,
            s[0],
            s[1],
            "x86_64-linux"@,
        ] + s.skip(2),
        s.len() < 2 ==> MappingKind::InputsPrime.mapped(s) == seq!["inputs"@] + s,
        s.len() >= 1 ==> MappingKind::SelfPrime.mapped(s) == seq![s[0], "x86_64-linux"@] + s.skip(1),
        s.len() == 0 ==> MappingKind::SelfPrime.mapped(s) == s,
        MappingKind::SelfOutputs.mapped(s) == s,
{
    crate::mapping::law_mapped_names(s);
    assert(MappingKind::Nixpkgs.mapped(s) =~= s + seq![
        "inputs"@,
        "nixpkgs"@,
        "legacyPackages"@,
        "x86_64-linux"@,
    ]);
    assert(MappingKind::Lib.mapped(s) =~= s + seq![
        "inputs"@,
        "nixpkgs"@,
        "legacyPackages"@,
        "x86_64-linux"@,
        "lib"@,
    ]);
    assert(MappingKind::Inputs.mapped(s) =~= s + seq!["input"@]);
    if s.len() == 0 {
        assert(MappingKind::SelfPrime.mapped(s) =~= s);
    }
}

/// Every selectable mapping but `pkgs` offers every name found, in order,
/// as a field without sort text.
pub proof fn law_selected_field_mappings_offer_every_name(kind: MappingKind, c: Seq<CandidateView>)
    requires
        kind != MappingKind::Nixpkgs,
    ensures
        kind.entries(c).len() == c.len(),
        forall|i: int|
            0 <= i < c.len() ==> #[trigger] kind.entries(c)[i] == (
                c[i].0,
                crate::mapping::CompletionKind::Field,
                None::<Seq<char>>,
            ),
{
    crate::mapping::law_field_mappings_offer_every_name(c);
}

/// `pkgs` as selected: a name whose value did not evaluate adds nothing,
/// and when all values evaluated every name is offered, in order, as the
/// entry its value classifies it to.
pub proof fn law_selected_packages_entries(c: Seq<CandidateView>, i: int)
    ensures
        0 <= i < c.len() && c[i].1 is None ==> MappingKind::Nixpkgs.entries(c)
            == MappingKind::Nixpkgs.entries(c.remove(i)),
        (forall|j: int| 0 <= j < c.len() ==> (#[trigger] c[j]).1 is Some) ==> {
            &&& MappingKind::Nixpkgs.entries(c).len() == c.len()
            &&& forall|j: int|
                0 <= j < c.len() ==> #[trigger] MappingKind::Nixpkgs.entries(c)[j]
                    == crate::mapping::package_entry(c[j].0, c[j].1.unwrap())
        },
{
    if 0 <= i < c.len() && c[i].1 is None {
        crate::mapping::law_packages_skip_unevaluated_name(c, i);
    }
    if forall|j: int| 0 <= j < c.len() ==> (#[trigger] c[j]).1 is Some {
        crate::mapping::law_packages_offer_every_evaluated_name(c);
    }
}

/// `w2` is `w1` from index `s` on, moved by `d` places.
pub open spec fn shifted(w1: Seq<PathNodeView>, w2: Seq<PathNodeView>, s: int, d: int) -> bool {
    &&& w2.len() == w1.len() + d
    &&& 0 <= s + d
    &&& forall|k: int| s <= k < w1.len() ==> #[trigger] w2[k + d] == w1[k]
}

proof fn lemma_shift_first_identifier(w1: Seq<PathNodeView>, w2: Seq<PathNodeView>, s: int, d: int, j: int)
    requires
        shifted(w1, w2, s, d),
        s <= j,
    ensures
        first_identifier_from(w2, j + d) == match first_identifier_from(w1, j) {
            Some(a) => Some(a + d),
            None => None::<int>,
        },
    decreases w1.len() - j,
{
    if j < w1.len() {
        assert(w2[j + d] == w1[j]);
        assert(j + d + 1 == (j + 1) + d);
        lemma_shift_first_identifier(w1, w2, s, d, j + 1);
    }
}

proof fn lemma_shift_path_end(w1: Seq<PathNodeView>, w2: Seq<PathNodeView>, s: int, d: int, j: int)
    requires
        shifted(w1, w2, s, d),
        s <= j,
    ensures
        path_end(w2, j + d) == path_end(w1, j) + d,
    decreases w1.len() - j,
{
    if j < w1.len() {
        assert(w2[j + d] == w1[j]);
        assert(j + d + 1 == (j + 1) + d);
        lemma_shift_path_end(w1, w2, s, d, j + 1);
    }
}

proof fn lemma_shift_identifiers(
    w1: Seq<PathNodeView>,
    w2: Seq<PathNodeView>,
    s: int,
    d: int,
    lo: int,
    hi: int,
)
    requires
        shifted(w1, w2, s, d),
        s <= lo,
        hi <= w1.len(),
    ensures
        identifiers_between(w2, lo + d, hi + d) == identifiers_between(w1, lo, hi),
        names_readable(w2, lo + d, hi + d) == names_readable(w1, lo, hi),
    decreases hi - lo,
{
    if hi > lo {
        assert(w2[(hi - 1) + d] == w1[hi - 1]);
        assert(hi + d - 1 == (hi - 1) + d);
        lemma_shift_identifiers(w1, w2, s, d, lo, hi - 1);
    }
    if names_readable(w1, lo, hi) {
        assert forall|k: int|
            lo + d <= k < hi + d && w2[k].0 == NodeType::Identifier implies w2[k].1 is Some by {
            assert(w2[(k - d) + d] == w1[k - d]);
        }
    }
    if names_readable(w2, lo + d, hi + d) {
        assert forall|k: int| lo <= k < hi && w1[k].0 == NodeType::Identifier implies w1[k].1 is Some by {
            assert(w2[k + d] == w1[k]);
        }
    }
}

proof fn lemma_path_end_within(w: Seq<PathNodeView>, j: int)
    requires
        0 <= j <= w.len(),
    ensures
        j <= path_end(w, j) <= w.len(),
    decreases w.len() - j,
{
    if j < w.len() && continues_path(w[j].0) {
        lemma_path_end_within(w, j + 1);
    }
}

proof fn lemma_identifiers_peel_low(w: Seq<PathNodeView>, lo: int, hi: int)
    requires
        lo < hi,
    ensures
        identifiers_between(w, lo, hi) == identifiers_between(w, lo + 1, hi) + (if w[lo].0
            == NodeType::Identifier {
            seq![w[lo].1.unwrap()]
        } else {
            Seq::<Seq<char>>::empty()
        }),
    decreases hi - lo,
{
    if hi - 1 > lo {
        lemma_identifiers_peel_low(w, lo, hi - 1);
        if w[hi - 1].0 == NodeType::Identifier {
            assert(seq![w[hi - 1].1.unwrap()] + (identifiers_between(w, lo + 1, hi - 1) + (if w[lo].0
                == NodeType::Identifier {
                seq![w[lo].1.unwrap()]
            } else {
                Seq::<Seq<char>>::empty()
            })) =~= (seq![w[hi - 1].1.unwrap()] + identifiers_between(w, lo + 1, hi - 1)) + (if w[lo].0
                == NodeType::Identifier {
                seq![w[lo].1.unwrap()]
            } else {
                Seq::<Seq<char>>::empty()
            }));
        }
    } else {
        assert(identifiers_between(w, lo + 1, hi) =~= Seq::<Seq<char>>::empty());
        assert(identifiers_between(w, lo, hi - 1) =~= Seq::<Seq<char>>::empty());
        if w[lo].0 == NodeType::Identifier {
            assert(seq![w[lo].1.unwrap()] + Seq::<Seq<char>>::empty() =~= Seq::<Seq<char>>::empty()
                + seq![w[lo].1.unwrap()]);
        } else {
            assert(Seq::<Seq<char>>::empty() + Seq::<Seq<char>>::empty() =~= Seq::<Seq<char>>::empty());
        }
    }
}

/// The kind of path node the cursor stands on does not matter: with the
/// cursor on an identifier being typed, on a dot or on an attribute path,
/// the same path is read back from the nodes before it.
pub proof fn law_cursor_node_kind_does_not_matter(w1: Seq<PathNodeView>, w2: Seq<PathNodeView>)
    requires
        w1.len() == w2.len(),
        w1.len() > 0,
        w1[0].0 != NodeType::Other,
        w2[0].0 != NodeType::Other,
        forall|k: int| 1 <= k < w1.len() ==> #[trigger] w1[k] == w2[k],
    ensures
        attribute_path_of(w1) == attribute_path_of(w2),
{
    assert(shifted(w1, w2, 1, 0)) by {
        assert forall|k: int| 1 <= k < w1.len() implies #[trigger] w2[k + 0] == w1[k] by {
            assert(w1[k] == w2[k]);
        }
    }
    lemma_shift_first_identifier(w1, w2, 1, 0, 1);
    lemma_first_identifier_at_least(w1, 1);
    match anchor_index(w1) {
        Some(a) => {
            assert(w1[a] == w2[a]);
            lemma_path_end_within(w1, a + 1);
            lemma_shift_path_end(w1, w2, 1, 0, a + 1);
            lemma_shift_identifiers(w1, w2, 1, 0, a + 1, path_end(w1, a + 1));
        },
        None => {},
    }
}

/// Reading back from a node that is not part of a path: the walk's end
/// gives no path, an unnamed node fails, a named node alone is the path.
pub proof fn law_path_base_cases(w: Seq<PathNodeView>)
    ensures
        w.len() == 0 ==> attribute_path_of(w) == Err::<Seq<Seq<char>>, CompletionError>(
            CompletionError::NodeNotFound,
        ),
        w.len() == 1 && w[0].0 != NodeType::Other ==> attribute_path_of(w) == Err::<
            Seq<Seq<char>>,
            CompletionError,
        >(CompletionError::NoParentLeft),
        w.len() > 0 && w[0].0 == NodeType::Other && w[0].1 is None ==> attribute_path_of(w)
            == Err::<Seq<Seq<char>>, CompletionError>(CompletionError::NoNodeName),
        w.len() > 0 && w[0].0 == NodeType::Other && w[0].1 is Some && (w.len() == 1 || w[1].0
            == NodeType::Other) ==> attribute_path_of(w) == Ok::<Seq<Seq<char>>, CompletionError>(
            seq![w[0].1.unwrap()],
        ),
{
    if w.len() > 0 && w[0].0 == NodeType::Other && w[0].1 is Some && (w.len() == 1 || w[1].0
        == NodeType::Other) {
        assert(path_end(w, 1) == 1);
        assert(identifiers_between(w, 1, 1) =~= Seq::<Seq<char>>::empty());
    }
}

/// How the nodes before the path's first node shape the path, when
/// reading back from a node that is not part of a path: an identifier
/// there adds its name just before that node's name, a dot or an attribute
/// path adds nothing, an unreadable identifier fails, any other node ends
/// the path.
pub proof fn law_path_grows_by_identifiers(w: Seq<PathNodeView>, n: PathNodeView)
    requires
        w.len() > 0,
        w[0].0 == NodeType::Other,
        w[0].1 is Some,
    ensures
        ({
            let w2 = seq![w[0], n] + w.drop_first();
            &&& n.0 == NodeType::Identifier && n.1 is Some ==> match attribute_path_of(w) {
                Ok(p) => attribute_path_of(w2) == Ok::<Seq<Seq<char>>, CompletionError>(
                    p.insert(p.len() - 1, n.1.unwrap()),
                ),
                Err(e) => attribute_path_of(w2) == Err::<Seq<Seq<char>>, CompletionError>(e),
            }
            &&& n.0 == NodeType::Identifier && n.1 is None ==> attribute_path_of(w2) == Err::<
                Seq<Seq<char>>,
                CompletionError,
            >(CompletionError::NoNodeName)
            &&& (n.0 == NodeType::Dot || n.0 == NodeType::Attrpath) ==> attribute_path_of(w2)
                == attribute_path_of(w)
            &&& n.0 == NodeType::Other ==> attribute_path_of(w2) == Ok::<Seq<Seq<char>>, CompletionError>(
                seq![w[0].1.unwrap()],
            )
        }),
{
    let w2 = seq![w[0], n] + w.drop_first();
    let x = w[0].1.unwrap();
    assert(w2[0] == w[0]);
    assert(w2[1] == n);
    assert(shifted(w, w2, 1, 1)) by {
        assert forall|k: int| 1 <= k < w.len() implies #[trigger] w2[k + 1] == w[k] by {
            assert(w2[k + 1] == w.drop_first()[k - 1]);
        }
    }
    lemma_path_end_within(w, 1);
    let e = path_end(w, 1);
    lemma_shift_path_end(w, w2, 1, 1, 1);
    lemma_shift_identifiers(w, w2, 1, 1, 1, e);
    if n.0 == NodeType::Other {
        assert(path_end(w2, 1) == 1);
        assert(identifiers_between(w2, 1, 1) =~= Seq::<Seq<char>>::empty());
    } else {
        assert(path_end(w2, 1) == e + 1);
        lemma_identifiers_peel_low(w2, 1, e + 1);
        if n.0 == NodeType::Identifier && n.1 is None {
            assert(!names_readable(w2, 1, e + 1));
        } else {
            assert(names_readable(w2, 1, e + 1) == names_readable(w, 1, e)) by {
                if names_readable(w, 1, e) {
                    assert forall|k: int|
                        1 <= k < e + 1 && w2[k].0 == NodeType::Identifier implies w2[k].1 is Some by {
                        if k >= 2 {
                            assert(names_readable(w2, 2, e + 1));
                        }
                    }
                }
                if names_readable(w2, 1, e + 1) {
                    assert forall|k: int|
                        2 <= k < e + 1 && w2[k].0 == NodeType::Identifier implies w2[k].1 is Some by {
                    }
                }
            }
            if n.0 == NodeType::Identifier {
                let p = identifiers_between(w, 1, e).push(x);
                assert(identifiers_between(w2, 1, e + 1).push(x) =~= p.insert(p.len() - 1, n.1.unwrap()));
            } else {
                assert(identifiers_between(w2, 1, e + 1) =~= identifiers_between(w, 1, e));
            }
        }
    }
}

/// With the cursor on a path node, the walk back skips every node up to the
/// first identifier and reads the path from there as if the cursor stood
/// on that identifier outside any path: a non-identifier right before the
/// cursor may be left out, and an identifier right before it becomes the
/// node the path is read back from.
pub proof fn law_cursor_on_path_reads_from_previous_identifier(w: Seq<PathNodeView>)
    requires
        w.len() >= 2,
        w[0].0 != NodeType::Other,
    ensures
        w[1].0 != NodeType::Identifier ==> attribute_path_of(w) == attribute_path_of(
            seq![w[0]] + w.skip(2),
        ),
        w[1].0 == NodeType::Identifier ==> attribute_path_of(w) == attribute_path_of(
            seq![(NodeType::Other, w[1].1)] + w.skip(2),
        ),
{
    let head: PathNodeView = if w[1].0 == NodeType::Identifier {
        (NodeType::Other, w[1].1)
    } else {
        w[0]
    };
    let w2 = seq![head] + w.skip(2);
    assert(w2[0] == head);
    assert(shifted(w, w2, 2, -1)) by {
        assert forall|k: int| 2 <= k < w.len() implies #[trigger] w2[k + -1] == w[k] by {
            assert(w2[k - 1] == w.skip(2)[k - 2]);
        }
    }
    if w[1].0 != NodeType::Identifier {
        assert(first_identifier_from(w, 1) == first_identifier_from(w, 2));
        lemma_shift_first_identifier(w, w2, 2, -1, 2);
        assert(first_identifier_from(w2, 1) == first_identifier_from(w2, 2 + -1));
        match anchor_index(w) {
            Some(a) => {
                lemma_first_identifier_at_least(w, 2);
                assert(anchor_index(w2) == Some(a - 1));
                assert(w2[a + -1] == w[a]);
                lemma_path_end_within(w, a + 1);
                lemma_shift_path_end(w, w2, 2, -1, a + 1);
                assert(a - 1 + 1 == (a + 1) + -1);
                lemma_shift_identifiers(w, w2, 2, -1, a + 1, path_end(w, a + 1));
            },
            None => {},
        }
    } else {
        assert(anchor_index(w) == Some(1int));
        assert(anchor_index(w2) == Some(0int));
        lemma_path_end_within(w, 2);
        lemma_shift_path_end(w, w2, 2, -1, 2);
        lemma_shift_identifiers(w, w2, 2, -1, 2, path_end(w, 2));
    }
}

proof fn lemma_first_identifier_at_least(w: Seq<PathNodeView>, j: int)
    ensures
        first_identifier_from(w, j) matches Some(a) ==> j <= a < w.len(),
    decreases w.len() - j,
{
    if j < w.len() {
        lemma_first_identifier_at_least(w, j + 1);
    }
}

/// `pkgs`, `lib`, `inputs`, `inputs'`, `self` and `self'` select the
/// packages, lib, inputs, inputs', self and self' mappings; every other
/// variable selects none.
pub proof fn law_variables_select_mappings(name: Seq<char>)
    ensures
        mapping_named("pkgs"@) == Some(MappingKind::Nixpkgs),
        mapping_named("lib"@) == Some(MappingKind::Lib),
        mapping_named("inputs"@) == Some(MappingKind::Inputs),
        mapping_named("inputs'"@) == Some(MappingKind::InputsPrime),
        mapping_named("self"@) == Some(MappingKind::SelfOutputs),
        mapping_named("self'"@) == Some(MappingKind::SelfPrime),
        name != "pkgs"@ && name != "lib"@ && name != "inputs"@ && name != "inputs'"@ && name
            != "self"@ && name != "self'"@ ==> mapping_named(name) is None,
{
    reveal_strlit("pkgs");
    reveal_strlit("lib");
    reveal_strlit("inputs");
    reveal_strlit("inputs'");
    reveal_strlit("self");
    reveal_strlit("self'");
    assert("lib"@.len() == 3 && "pkgs"@.len() == 4 && "self"@.len() == 4);
    assert("inputs"@.len() == 6);
    assert("inputs'"@.len() == 7);
    assert("self"@[0] != "pkgs"@[0]);
    assert("self'"@.len() == 5);
}

/// The variables that have a mapping, each with the mapping it selects.
pub open spec fn standard_mappings() -> Seq<(Seq<char>, MappingKind)> {
    seq![
        ("pkgs"@, MappingKind::Nixpkgs),
        ("lib"@, MappingKind::Lib),
        ("inputs"@, MappingKind::Inputs),
        ("inputs'"@, MappingKind::InputsPrime),
        ("self"@, MappingKind::SelfOutputs),
        ("self'"@, MappingKind::SelfPrime),
    ]
}

/// The mapping that the variable `name` selects, if any.
pub open spec fn mapping_named(name: Seq<char>) -> Option<MappingKind> {
    if name == "pkgs"@ {
        Some(MappingKind::Nixpkgs)
    } else if name == "lib"@ {
        Some(MappingKind::Lib)
    } else if name == "inputs"@ {
        Some(MappingKind::Inputs)
    } else if name == "inputs'"@ {
        Some(MappingKind::InputsPrime)
    } else if name == "self"@ {
        Some(MappingKind::SelfOutputs)
    } else if name == "self'"@ {
        Some(MappingKind::SelfPrime)
    } else {
        None
    }
}

/// The first entry of the table whose name is `name` gives the mapping
/// that `name` selects.
proof fn lemma_first_match(name: Seq<char>, i: int)
    requires
        0 <= i < 6,
        standard_mappings()[i].0 == name,
        forall|j: int| 0 <= j < i ==> standard_mappings()[j].0 != name,
    ensures
        mapping_named(name) == Some(standard_mappings()[i].1),
{
    reveal_strlit("pkgs");
    reveal_strlit("lib");
    reveal_strlit("inputs");
    reveal_strlit("inputs'");
    reveal_strlit("self");
    reveal_strlit("self'");
    if i == 0 {
    } else if i == 1 {
        assert(standard_mappings()[0].0 != name);
    } else if i == 2 {
        assert(standard_mappings()[0].0 != name);
        assert(standard_mappings()[1].0 != name);
    } else if i == 3 {
        assert(standard_mappings()[0].0 != name);
        assert(standard_mappings()[1].0 != name);
        assert(standard_mappings()[2].0 != name);
    } else if i == 4 {
        assert(standard_mappings()[0].0 != name);
        assert(standard_mappings()[1].0 != name);
        assert(standard_mappings()[2].0 != name);
        assert(standard_mappings()[3].0 != name);
    } else {
        assert(standard_mappings()[0].0 != name);
        assert(standard_mappings()[1].0 != name);
        assert(standard_mappings()[2].0 != name);
        assert(standard_mappings()[3].0 != name);
        assert(standard_mappings()[4].0 != name);
    }
}

/// What a completion asks the flake for: the mapping that the path's
/// variable selects and the attribute path inside the flake.
pub struct CompletionRequest {
    pub mapping: MappingKind,
    pub names: Vec<String>,
}

/// The names of a deque, front first, in a vector.
fn deque_into_vec(names: VecDeque<String>) -> (v: Vec<String>)
    ensures
        v.deep_view() == names.deep_view(),
{
    let ghost all = names.deep_view();
    let mut rest = names;
    let mut v: Vec<String> = Vec::new();
    while rest.len() > 0
        invariant
            v.deep_view() + rest.deep_view() == all,
        decreases rest@.len(),
    {
        let ghost before_v = v.deep_view();
        let ghost before_rest = rest.deep_view();
        let first = rest.pop_front().unwrap();
        assert(rest.deep_view() =~= before_rest.drop_first());
        v.push(first);
        assert(v.deep_view() =~= before_v.push(before_rest[0]));
        assert(v.deep_view() + rest.deep_view() =~= before_v + before_rest);
    }
    assert(rest.deep_view() =~= Seq::<Seq<char>>::empty());
    assert(v.deep_view() =~= all);
    v
}

/// The table and the lookup agree: each variable of the table selects the
/// mapping listed beside it, and no variable is listed twice.
pub proof fn law_table_matches_lookup(i: int, j: int)
    requires
        0 <= i < standard_mappings().len(),
        0 <= j < standard_mappings().len(),
    ensures
        mapping_named(standard_mappings()[i].0) == Some(standard_mappings()[i].1),
        i != j ==> standard_mappings()[i].0 != standard_mappings()[j].0,
{
    reveal_strlit("pkgs");
    reveal_strlit("lib");
    reveal_strlit("inputs");
    reveal_strlit("inputs'");
    reveal_strlit("self");
    reveal_strlit("self'");
    let t = standard_mappings();
    assert(t[0].0.len() == 4 && t[1].0.len() == 3 && t[2].0.len() == 6);
    assert(t[3].0.len() == 7 && t[4].0.len() == 4 && t[5].0.len() == 5);
    assert(t[0].0[0] != t[4].0[0]);
}

/// `a` can be obtained from `b` by leaving out elements.
pub open spec fn is_subsequence(a: Seq<Seq<char>>, b: Seq<Seq<char>>) -> bool
    decreases b.len(),
{
    if a.len() == 0 {
        true
    } else if b.len() == 0 {
        false
    } else if a[0] == b[0] {
        is_subsequence(a.drop_first(), b.drop_first())
    } else {
        is_subsequence(a, b.drop_first())
    }
}

proof fn lemma_subsequence_of_self_extended(a: Seq<Seq<char>>, t: Seq<Seq<char>>)
    ensures
        is_subsequence(a, a + t),
    decreases a.len(),
{
    if a.len() > 0 {
        assert((a + t).drop_first() =~= a.drop_first() + t);
        lemma_subsequence_of_self_extended(a.drop_first(), t);
    }
}

/// Putting an element in front of `c` keeps what was a subsequence of it.
proof fn lemma_subsequence_weaken(a: Seq<Seq<char>>, c: Seq<Seq<char>>, x: Seq<char>)
    requires
        is_subsequence(a, c),
    ensures
        is_subsequence(a, seq![x] + c),
    decreases c.len(), 1int,
{
    let d = seq![x] + c;
    assert(d.drop_first() =~= c);
    if a.len() > 0 && a[0] == x {
        lemma_subsequence_drop_first(a, c);
    }
}

/// Leaving out the first element of `a` keeps it a subsequence.
proof fn lemma_subsequence_drop_first(a: Seq<Seq<char>>, c: Seq<Seq<char>>)
    requires
        a.len() > 0,
        is_subsequence(a, c),
    ensures
        is_subsequence(a.drop_first(), c),
    decreases c.len(), 0int,
{
    if c.len() > 0 {
        assert(seq![c[0]] + c.drop_first() =~= c);
        if a[0] == c[0] {
            lemma_subsequence_weaken(a.drop_first(), c.drop_first(), c[0]);
        } else {
            lemma_subsequence_drop_first(a, c.drop_first());
            lemma_subsequence_weaken(a.drop_first(), c.drop_first(), c[0]);
        }
    }
}

proof fn lemma_subsequence_of_inserted(a: Seq<Seq<char>>, i: int, x: Seq<char>)
    requires
        0 <= i <= a.len(),
    ensures
        is_subsequence(a, a.insert(i, x)),
    decreases a.len(),
{
    let b = a.insert(i, x);
    if a.len() > 0 {
        if i == 0 {
            assert(b =~= seq![x] + a);
            lemma_subsequence_of_self_extended(a, Seq::empty());
            assert(a + Seq::<Seq<char>>::empty() =~= a);
            lemma_subsequence_weaken(a, a, x);
        } else {
            assert(b[0] == a[0]);
            assert(b.drop_first() =~= a.drop_first().insert(i - 1, x));
            lemma_subsequence_of_inserted(a.drop_first(), i - 1, x);
        }
    }
}

proof fn lemma_subsequence_transitive(a: Seq<Seq<char>>, b: Seq<Seq<char>>, c: Seq<Seq<char>>)
    requires
        is_subsequence(a, b),
        is_subsequence(b, c),
    ensures
        is_subsequence(a, c),
    decreases c.len(),
{
    if a.len() > 0 && c.len() > 0 {
        if b[0] == c[0] {
            if a[0] == b[0] {
                lemma_subsequence_transitive(a.drop_first(), b.drop_first(), c.drop_first());
            } else {
                lemma_subsequence_transitive(a, b.drop_first(), c.drop_first());
            }
        } else {
            lemma_subsequence_transitive(a, b, c.drop_first());
            if a[0] == c[0] {
                lemma_subsequence_drop_first(a, c.drop_first());
            }
        }
    }
}

/// Every mapping keeps the names that followed the variable, in the order
/// they were typed: it only adds segments around and between them.
pub proof fn law_mapping_keeps_typed_names(kind: MappingKind, names: Seq<Seq<char>>)
    ensures
        is_subsequence(names, kind.mapped(names)),
{
    match kind {
        MappingKind::Nixpkgs => {
            lemma_subsequence_of_self_extended(
                names,
                seq!["inputs"@, "nixpkgs"@, "legacyPackages"@, crate::mapping::system_segment()],
            );
        },
        MappingKind::Lib => {
            let t = seq!["inputs"@, "nixpkgs"@, "legacyPackages"@, crate::mapping::system_segment(), "lib"@];
            assert(kind.mapped(names) =~= names + t);
            lemma_subsequence_of_self_extended(names, t);
        },
        MappingKind::Inputs => {
            assert(kind.mapped(names) =~= names + seq!["input"@]);
            lemma_subsequence_of_self_extended(names, seq!["input"@]);
        },
        MappingKind::InputsPrime => {
            let prefixed = seq!["inputs"@] + names;
            assert(prefixed =~= names.insert(0, "inputs"@));
            lemma_subsequence_of_inserted(names, 0, "inputs"@);
            if prefixed.len() >= 3 {
                lemma_subsequence_of_inserted(prefixed, 3, crate::mapping::system_segment());
                lemma_subsequence_transitive(
                    names,
                    prefixed,
                    prefixed.insert(3, crate::mapping::system_segment()),
                );
            }
        },
        MappingKind::SelfOutputs => {
            lemma_subsequence_of_self_extended(names, Seq::empty());
            assert(names + Seq::<Seq<char>>::empty() =~= names);
        },
        MappingKind::SelfPrime => {
            if names.len() > 0 {
                lemma_subsequence_of_inserted(names, 1, crate::mapping::system_segment());
            } else {
                lemma_subsequence_of_self_extended(names, Seq::empty());
                assert(names + Seq::<Seq<char>>::empty() =~= names);
            }
        },
    }
}

/// The completion engine: the table from variable names to mappings.
pub struct NixCompletion {
    mappings: Vec<(String, MappingKind)>,
}

impl NixCompletion {
    /// The table as pairs of plain values.
    pub closed spec fn table(&self) -> Seq<(Seq<char>, MappingKind)> {
        Seq::new(self.mappings@.len(), |i: int| (self.mappings@[i].0@, self.mappings@[i].1))
    }

    #[verifier::type_invariant]
    closed spec fn holds_standard_mappings(&self) -> bool {
        self.table() == standard_mappings()
    }

    /// Builds the table of the six known variables.
    pub fn new() -> (completion: NixCompletion)
        ensures
            completion.table() == standard_mappings(),
    {
        let mut mappings: Vec<(String, MappingKind)> = Vec::new();
        mappings.push((String::from_str("pkgs"), MappingKind::Nixpkgs));
        mappings.push((String::from_str("lib"), MappingKind::Lib));
        mappings.push((String::from_str("inputs"), MappingKind::Inputs));
        mappings.push((String::from_str("inputs'"), MappingKind::InputsPrime));
        mappings.push((String::from_str("self"), MappingKind::SelfOutputs));
        mappings.push((String::from_str("self'"), MappingKind::SelfPrime));
        assert(Seq::new(mappings@.len(), |i: int| (mappings@[i].0@, mappings@[i].1))
            =~= standard_mappings());
        NixCompletion { mappings }
    }

    /// The mapping that the variable `name` selects.
    pub fn lookup(&self, name: &String) -> (kind: Option<MappingKind>)
        ensures
            kind == mapping_named(name@),
    {
        proof {
            use_type_invariant(self);
            reveal_strlit("pkgs");
            reveal_strlit("lib");
            reveal_strlit("inputs");
            reveal_strlit("inputs'");
            reveal_strlit("self");
            reveal_strlit("self'");
        }
        assert(self.table().len() == 6);
        let n = self.mappings.len();
        for i in 0..n
            invariant
                n == self.mappings@.len(),
                n == 6,
                self.table() == standard_mappings(),
                forall|j: int| 0 <= j < i ==> self.table()[j].0 != name@,
        {
            assert(self.table()[i as int].0 == self.mappings@[i as int].0@);
            if self.mappings[i].0 == *name {
                proof {
                    lemma_first_match(name@, i as int);
                }
                return Some(self.mappings[i].1);
            }
        }
        assert(self.table()[0].0 != name@);
        assert(self.table()[1].0 != name@);
        assert(self.table()[2].0 != name@);
        assert(self.table()[3].0 != name@);
        assert(self.table()[4].0 != name@);
        assert(self.table()[5].0 != name@);
        None
    }

    /// What a completion at the cursor asks for: the attribute path read
    /// back from the cursor, whose first name selects the mapping and whose
    /// other names that mapping rewrites.
    pub fn complete_path(&self, walk: &Vec<PathNode>) -> (result: Result<CompletionRequest, CompletionError>)
        ensures
            match attribute_path_of(walk.deep_view()) {
                Err(e) => result == Err::<CompletionRequest, CompletionError>(e),
                Ok(path) => match mapping_named(path[0]) {
                    None => result matches Err(CompletionError::UnsupportedVariable(variable))
                        && variable@ == path[0],
                    Some(kind) => result matches Ok(request) && request.mapping == kind
                        && request.names.deep_view() == kind.mapped(path.drop_first()),
                },
            },
    {
        let mut names = match attribute_path(walk) {
            Ok(names) => names,
            Err(e) => {
                return Err(e);
            },
        };
        let ghost path = names.deep_view();
        assert(path.len() > 0);
        assert(names@.len() == path.len());
        let first = names.pop_front().unwrap();
        assert(names.deep_view() =~= path.drop_first());
        match self.lookup(&first) {
            None => Err(CompletionError::UnsupportedVariable(first)),
            Some(kind) => {
                kind.map_names(&mut names);
                Ok(CompletionRequest { mapping: kind, names: deque_into_vec(names) })
            },
        }
    }
}

} // verus!
