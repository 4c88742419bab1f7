//! Mappings from the variable a user typed (`pkgs`, `lib`, `inputs`, ...)
//! to the attribute path inside the loaded flake.

use std::collections::VecDeque;
use vstd::prelude::*;
use vstd::string::StringExecFns;

verus! {

/// The system attribute that system-specific outputs are selected with.
pub open spec fn system_segment() -> Seq<char> {
    "x86_64-linux"@
}

/// The type of an evaluated Nix value.
#[derive(Clone, Copy, Debug, PartialEq, Eq, Structural)]
pub enum NixValueType {
    AttrSet,
    Bool,
    External,
    Float,
    Function,
    Int,
    List,
    Null,
    Path,
    String,
    Unknown,
}

/// What the evaluation of one attribute's value told: its type, and, for an
/// attribute set, whether selecting `__functor` from it succeeded.
#[derive(Clone, Copy, Debug, PartialEq, Eq, Structural)]
pub struct ValueProbe {
    pub value_type: NixValueType,
    pub has_functor: bool,
}

/// One attribute name found under the mapped path, with the probe of its
/// value, or `None` where evaluating the value failed or was not attempted.
pub struct Candidate {
    pub name: String,
    pub probe: Option<ValueProbe>,
}

/// The abstract value of a `Candidate`: its name and its probe.
pub type CandidateView = (Seq<char>, Option<ValueProbe>);

impl DeepView for Candidate {
    type V = CandidateView;

    open spec fn deep_view(&self) -> CandidateView {
        (self.name@, self.probe)
    }
}

/// The kind shown beside a completion entry.
#[derive(Clone, Copy, Debug, PartialEq, Eq, Structural)]
pub enum CompletionKind {
    Field,
    Function,
}

/// A completion entry: label, kind, and the text editors sort by.
pub struct CompletionEntry {
    pub label: String,
    pub kind: CompletionKind,
    pub sort_text: Option<String>,
}

/// The abstract value of a `CompletionEntry`.
pub type EntryView = (Seq<char>, CompletionKind, Option<Seq<char>>);

pub open spec fn sort_text_view(sort_text: Option<String>) -> Option<Seq<char>> {
    match sort_text {
        Some(s) => Some(s@),
        None => None,
    }
}

impl DeepView for CompletionEntry {
    type V = EntryView;

    open spec fn deep_view(&self) -> EntryView {
        (self.label@, self.kind, sort_text_view(self.sort_text))
    }
}

/// Every name becomes a field entry with its name as label, in the order given.
pub open spec fn field_entries(candidates: Seq<CandidateView>) -> Seq<EntryView> {
    candidates.map_values(|c: CandidateView| (c.0, CompletionKind::Field, None::<Seq<char>>))
}

/// A value counts as a function when it is one, or when it is an attribute
/// set that can be called through `__functor`.
pub open spec fn is_function_value(probe: ValueProbe) -> bool {
    ||| probe.value_type == NixValueType::Function
    ||| probe.value_type == NixValueType::AttrSet && probe.has_functor
}

pub open spec fn kind_of(probe: ValueProbe) -> CompletionKind {
    if is_function_value(probe) {
        CompletionKind::Function
    } else {
        CompletionKind::Field
    }
}

/// Functions sort under `0000`, everything else under `9999`.
pub open spec fn sort_priority(probe: ValueProbe) -> Seq<char> {
    if is_function_value(probe) {
        "0000"@
    } else {
        "9999"@
    }
}

pub open spec fn package_entry(name: Seq<char>, probe: ValueProbe) -> EntryView {
    (name, kind_of(probe), Some(sort_priority(probe) + "_"@ + name))
}

/// Names whose value could not be evaluated are left out; the others become
/// entries classified by their value, in the order given.
pub open spec fn package_entries(candidates: Seq<CandidateView>) -> Seq<EntryView>
    decreases candidates.len(),
{
    if candidates.len() == 0 {
        Seq::empty()
    } else {
        let rest = package_entries(candidates.drop_last());
        match candidates.last().1 {
            Some(probe) => rest.push(package_entry(candidates.last().0, probe)),
            None => rest,
        }
    }
}

/// Lexicographic order of texts: `a` sorts strictly before `b`.
pub open spec fn sorts_before(a: Seq<char>, b: Seq<char>) -> bool {
    exists|k: int|
        #![trigger a.take(k), b.take(k)]
        0 <= k <= a.len() && k <= b.len() && a.take(k) == b.take(k) && ((k < a.len() && k
            < b.len() && (a[k] as int) < (b[k] as int)) || (k == a.len() && k < b.len()))
}

/// Each package entry carries the sort text of its kind followed by `_`
/// and its label.
proof fn lemma_package_entry_shape(candidates: Seq<CandidateView>)
    ensures
        forall|i: int|
            0 <= i < package_entries(candidates).len() ==> {
                let e = #[trigger] package_entries(candidates)[i];
                e.2 == Some(
                    (if e.1 == CompletionKind::Function {
                        "0000"@
                    } else {
                        "9999"@
                    }) + "_"@ + e.0,
                )
            },
    decreases candidates.len(),
{
    if candidates.len() > 0 {
        lemma_package_entry_shape(candidates.drop_last());
    }
}

/// In the packages set, every entry for a function sorts before every entry
/// for any other value, whatever their labels.
pub proof fn law_functions_sort_first(candidates: Seq<CandidateView>, i: int, j: int)
    requires
        0 <= i < package_entries(candidates).len(),
        0 <= j < package_entries(candidates).len(),
        package_entries(candidates)[i].1 == CompletionKind::Function,
        package_entries(candidates)[j].1 == CompletionKind::Field,
    ensures
        sorts_before(
            package_entries(candidates)[i].2.unwrap(),
            package_entries(candidates)[j].2.unwrap(),
        ),
{
    lemma_package_entry_shape(candidates);
    reveal_strlit("0000");
    reveal_strlit("9999");
    reveal_strlit("_");
    let a = package_entries(candidates)[i].2.unwrap();
    let b = package_entries(candidates)[j].2.unwrap();
    assert(a[0] == '0');
    assert(b[0] == '9');
    assert(a.take(0) =~= b.take(0));
}

/// Two entries of the same kind in the packages set sort as their labels do.
pub proof fn law_same_kind_sorts_by_label(candidates: Seq<CandidateView>, i: int, j: int)
    requires
        0 <= i < package_entries(candidates).len(),
        0 <= j < package_entries(candidates).len(),
        package_entries(candidates)[i].1 == package_entries(candidates)[j].1,
    ensures
        sorts_before(
            package_entries(candidates)[i].2.unwrap(),
            package_entries(candidates)[j].2.unwrap(),
        ) == sorts_before(package_entries(candidates)[i].0, package_entries(candidates)[j].0),
{
    lemma_package_entry_shape(candidates);
    let ei = package_entries(candidates)[i];
    let ej = package_entries(candidates)[j];
    let p = (if ei.1 == CompletionKind::Function {
        "0000"@
    } else {
        "9999"@
    }) + "_"@;
    reveal_strlit("0000");
    reveal_strlit("9999");
    reveal_strlit("_");
    assert(p.len() == 5);
    assert(ei.2.unwrap() =~= p + ei.0);
    assert(ej.2.unwrap() =~= p + ej.0);
    lemma_prefix_keeps_order(p, ei.0, ej.0);
}

/// Putting the same text in front of two texts keeps their order.
proof fn lemma_prefix_keeps_order(p: Seq<char>, x: Seq<char>, y: Seq<char>)
    ensures
        sorts_before(p + x, p + y) == sorts_before(x, y),
{
    let a = p + x;
    let b = p + y;
    if sorts_before(x, y) {
        let k = choose|k: int|
            #![trigger x.take(k), y.take(k)]
            0 <= k <= x.len() && k <= y.len() && x.take(k) == y.take(k) && ((k < x.len() && k
                < y.len() && (x[k] as int) < (y[k] as int)) || (k == x.len() && k < y.len()));
        let m = p.len() + k;
        assert(a.take(m) =~= p + x.take(k));
        assert(b.take(m) =~= p + y.take(k));
        if k < x.len() && k < y.len() {
            assert(a[m] == x[k]);
            assert(b[m] == y[k]);
        }
    }
    if sorts_before(a, b) {
        let m = choose|k: int|
            #![trigger a.take(k), b.take(k)]
            0 <= k <= a.len() && k <= b.len() && a.take(k) == b.take(k) && ((k < a.len() && k
                < b.len() && (a[k] as int) < (b[k] as int)) || (k == a.len() && k < b.len()));
        if m < p.len() {
            assert(a[m] == p[m]);
            assert(b[m] == p[m]);
            assert(false);
        }
        let k = m - p.len();
        assert(x.take(k) =~= a.take(m).skip(p.len() as int));
        assert(y.take(k) =~= b.take(m).skip(p.len() as int));
        if k < x.len() && k < y.len() {
            assert(a[m] == x[k]);
            assert(b[m] == y[k]);
        }
        assert(x.take(k) == y.take(k));
    }
}

/// The completion kind of an evaluated value.
pub fn classify_value(probe: ValueProbe) -> (kind: CompletionKind)
    ensures
        kind == kind_of(probe),
{
    match probe.value_type {
        NixValueType::Function => CompletionKind::Function,
        NixValueType::AttrSet => {
            if probe.has_functor {
                CompletionKind::Function
            } else {
                CompletionKind::Field
            }
        },
        _ => CompletionKind::Field,
    }
}

/// The entry for one attribute of the packages set whose value evaluated.
pub fn package_entry_for(name: &String, probe: ValueProbe) -> (entry: CompletionEntry)
    ensures
        entry.deep_view() == package_entry(name@, probe),
{
    let kind = classify_value(probe);
    let mut sort_text = match kind {
        CompletionKind::Function => String::from_str("0000"),
        CompletionKind::Field => String::from_str("9999"),
    };
    sort_text.append("_");
    sort_text.append(name.as_str());
    CompletionEntry { label: name.clone(), kind, sort_text: Some(sort_text) }
}

/// The entries of the mappings that do not look at the values.
pub fn field_completion_items(candidates: &Vec<Candidate>) -> (items: Vec<CompletionEntry>)
    ensures
        items.deep_view() == field_entries(candidates.deep_view()),
{
    let mut items: Vec<CompletionEntry> = Vec::new();
    let n = candidates.len();
    for i in 0..n
        invariant
            n == candidates.len(),
            items.deep_view() =~= field_entries(candidates.deep_view().take(i as int)),
    {
        let entry = CompletionEntry {
            label: candidates[i].name.clone(),
            kind: CompletionKind::Field,
            sort_text: None,
        };
        let ghost before = items.deep_view();
        items.push(entry);
        assert(items.deep_view() =~= before.push((candidates[i as int].name@, CompletionKind::Field, None::<Seq<char>>)));
        assert(field_entries(candidates.deep_view().take(i + 1)) =~= field_entries(
            candidates.deep_view().take(i as int),
        ).push((candidates[i as int].name@, CompletionKind::Field, None::<Seq<char>>)));
    }
    assert(candidates.deep_view().take(n as int) =~= candidates.deep_view());
    items
}

/// The path of one attribute under `names`: `names` followed by `value`.
pub fn value_path(names: &Vec<String>, value: &String) -> (path: Vec<String>)
    ensures
        path.deep_view() == names.deep_view().push(value@),
{
    let mut path: Vec<String> = Vec::new();
    let n = names.len();
    for i in 0..n
        invariant
            n == names.len(),
            path.deep_view() =~= names.deep_view().take(i as int),
    {
        let ghost before = path.deep_view();
        path.push(names[i].clone());
        assert(path.deep_view() =~= before.push(names[i as int]@));
    }
    let ghost before = path.deep_view();
    path.push(value.clone());
    assert(path.deep_view() =~= before.push(value@));
    assert(names.deep_view().take(n as int) =~= names.deep_view());
    path
}

/// A rewrite of the attribute names that follow a known variable.
pub trait NixMapping {
    /// The names after the rewrite, as a function of the names before it.
    spec fn mapped(&self, names: Seq<Seq<char>>) -> Seq<Seq<char>>;

    /// Rewrites `names` in place.
    fn map_names(&self, names: &mut VecDeque<String>)
        ensures
            final(names).deep_view() == self.mapped(old(names).deep_view()),
    ;

    /// The completion entries offered for the attribute names found under
    /// the mapped path, as a function of those names and what their values
    /// evaluated to.
    spec fn entries(&self, candidates: Seq<CandidateView>) -> Seq<EntryView>;

    /// Turns the attribute names found under the mapped path into
    /// completion entries.
    fn completion_item(&self, candidates: &Vec<Candidate>) -> (items: Vec<CompletionEntry>)
        ensures
            items.deep_view() == self.entries(candidates.deep_view()),
    ;
}

/// `pkgs`: the legacy packages of the flake's `nixpkgs` input.
pub struct NixpkgMapping;

impl NixMapping for NixpkgMapping {
    open spec fn entries(&self, candidates: Seq<CandidateView>) -> Seq<EntryView> {
        package_entries(candidates)
    }

    fn completion_item(&self, candidates: &Vec<Candidate>) -> (items: Vec<CompletionEntry>) {
        let mut items: Vec<CompletionEntry> = Vec::new();
        let n = candidates.len();
        for i in 0..n
            invariant
                n == candidates.len(),
                items.deep_view() =~= package_entries(candidates.deep_view().take(i as int)),
        {
            assert(candidates.deep_view().take(i + 1).drop_last() =~= candidates.deep_view().take(
                i as int,
            ));
            match candidates[i].probe {
                Some(probe) => {
                    let entry = package_entry_for(&candidates[i].name, probe);
                    items.push(entry);
                },
                None => {},
            }
        }
        assert(candidates.deep_view().take(n as int) =~= candidates.deep_view());
        items
    }

    open spec fn mapped(&self, names: Seq<Seq<char>>) -> Seq<Seq<char>> {
        names + seq!["inputs"@, "nixpkgs"@, "legacyPackages"@, system_segment()]
    }

    fn map_names(&self, names: &mut VecDeque<String>) {
        let ghost before = names.deep_view();
        names.push_back(String::from_str("inputs"));
        names.push_back(String::from_str("nixpkgs"));
        names.push_back(String::from_str("legacyPackages"));
        names.push_back(String::from_str("x86_64-linux"));
        assert(names.deep_view() =~= self.mapped(before));
    }
}


/// `lib`: the `lib` attribute set of the flake's `nixpkgs` packages.
pub struct NixLibMapping;

impl NixMapping for NixLibMapping {
    open spec fn entries(&self, candidates: Seq<CandidateView>) -> Seq<EntryView> {
        field_entries(candidates)
    }

    fn completion_item(&self, candidates: &Vec<Candidate>) -> (items: Vec<CompletionEntry>) {
        field_completion_items(candidates)
    }

    open spec fn mapped(&self, names: Seq<Seq<char>>) -> Seq<Seq<char>> {
        NixpkgMapping.mapped(names).push("lib"@)
    }

    fn map_names(&self, names: &mut VecDeque<String>) {
        NixpkgMapping.map_names(names);
        names.push_back(String::from_str("lib"));
    }
}

/// `inputs`: the inputs of the flake.
pub struct NixInputsMapping;

impl NixMapping for NixInputsMapping {
    open spec fn entries(&self, candidates: Seq<CandidateView>) -> Seq<EntryView> {
        field_entries(candidates)
    }

    fn completion_item(&self, candidates: &Vec<Candidate>) -> (items: Vec<CompletionEntry>) {
        field_completion_items(candidates)
    }

    open spec fn mapped(&self, names: Seq<Seq<char>>) -> Seq<Seq<char>> {
        names.push("input"@)
    }

    fn map_names(&self, names: &mut VecDeque<String>) {
        names.push_back(String::from_str("input"));
    }
}

/// `inputs'`: `inputs.<flake>.<output>` with the system selected after the output.
pub struct NixInputsPrimeMapping;

impl NixMapping for NixInputsPrimeMapping {
    open spec fn entries(&self, candidates: Seq<CandidateView>) -> Seq<EntryView> {
        field_entries(candidates)
    }

    fn completion_item(&self, candidates: &Vec<Candidate>) -> (items: Vec<CompletionEntry>) {
        field_completion_items(candidates)
    }

    open spec fn mapped(&self, names: Seq<Seq<char>>) -> Seq<Seq<char>> {
        let prefixed = seq!["inputs"@] + names;
        if prefixed.len() >= 3 {
            prefixed.insert(3, system_segment())
        } else {
            prefixed
        }
    }

    fn map_names(&self, names: &mut VecDeque<String>) {
        let ghost before = names.deep_view();
        names.push_front(String::from_str("inputs"));
        assert(names.deep_view() =~= seq!["inputs"@] + before);
        if names.len() >= 3 {
            names.insert(3, String::from_str("x86_64-linux"));
            assert(names.deep_view() =~= (seq!["inputs"@] + before).insert(3, system_segment()));
        }
    }
}

/// `self'`: `self.<output>` with the system selected after the output.
pub struct NixSelfPrimeMapping;

impl NixMapping for NixSelfPrimeMapping {
    open spec fn entries(&self, candidates: Seq<CandidateView>) -> Seq<EntryView> {
        field_entries(candidates)
    }

    fn completion_item(&self, candidates: &Vec<Candidate>) -> (items: Vec<CompletionEntry>) {
        field_completion_items(candidates)
    }

    open spec fn mapped(&self, names: Seq<Seq<char>>) -> Seq<Seq<char>> {
        if names.len() > 0 {
            names.insert(1, system_segment())
        } else {
            names
        }
    }

    fn map_names(&self, names: &mut VecDeque<String>) {
        let ghost before = names.deep_view();
        if names.len() != 0 {
            names.insert(1, String::from_str("x86_64-linux"));
            assert(names.deep_view() =~= before.insert(1, system_segment()));
        }
    }
}

/// `self`: the flake's own outputs, used as they are.
pub struct NixSelfMapping;

impl NixMapping for NixSelfMapping {
    open spec fn entries(&self, candidates: Seq<CandidateView>) -> Seq<EntryView> {
        field_entries(candidates)
    }

    fn completion_item(&self, candidates: &Vec<Candidate>) -> (items: Vec<CompletionEntry>) {
        field_completion_items(candidates)
    }

    open spec fn mapped(&self, names: Seq<Seq<char>>) -> Seq<Seq<char>> {
        names
    }

    fn map_names(&self, _names: &mut VecDeque<String>) {
    }
}

/// What each mapping makes of the names typed after its variable:
/// `pkgs` appends the path of the legacy packages of `nixpkgs`, `lib`
/// that path and `lib`, `inputs` appends `input`, `inputs'` puts `inputs`
/// in front and the system after the second typed name (after the first
/// alone when only one was typed), `self'` puts the system after the first
/// typed name, and `self` changes nothing.
pub proof fn law_mapped_names(s: Seq<Seq<char>>)
    ensures
        NixpkgMapping.mapped(s).len() == s.len() + 4,
        NixpkgMapping.mapped(s).take(s.len() as int) == s,
        NixpkgMapping.mapped(s).skip(s.len() as int) == seq![
            "inputs"@,
            "nixpkgs"@,
            "legacyPackages"@,
            "x86_64-linux"@,
        ],
        NixLibMapping.mapped(s).len() == s.len() + 5,
        NixLibMapping.mapped(s).take(s.len() as int) == s,
        NixLibMapping.mapped(s).skip(s.len() as int) == seq![
            "inputs"@,
            "nixpkgs"@,
            "legacyPackages"@,
            "x86_64-linux"@,
            "lib"@,
        ],
        NixInputsMapping.mapped(s).len() == s.len() + 1,
        NixInputsMapping.mapped(s).take(s.len() as int) == s,
        NixInputsMapping.mapped(s)[s.len() as int] == "input"@,
        NixInputsPrimeMapping.mapped(s)[0] == "inputs"@,
        s.len() >= 2 ==> NixInputsPrimeMapping.mapped(s) == seq!["inputs"@, s[0], s[1], "x86_64-linux"@] + s.skip(2),
        s.len() < 2 ==> NixInputsPrimeMapping.mapped(s) == seq!["inputs"@] + s,
        s.len() >= 1 ==> NixSelfPrimeMapping.mapped(s) == seq![s[0], "x86_64-linux"@] + s.skip(1),
        s.len() == 0 ==> NixSelfPrimeMapping.mapped(s).len() == 0,
        NixSelfMapping.mapped(s) == s,
{
    let sys = "x86_64-linux"@;
    assert(NixpkgMapping.mapped(s).take(s.len() as int) =~= s);
    assert(NixpkgMapping.mapped(s).skip(s.len() as int) =~= seq![
        "inputs"@,
        "nixpkgs"@,
        "legacyPackages"@,
        sys,
    ]);
    assert(NixLibMapping.mapped(s).take(s.len() as int) =~= s);
    assert(NixLibMapping.mapped(s).skip(s.len() as int) =~= seq![
        "inputs"@,
        "nixpkgs"@,
        "legacyPackages"@,
        sys,
        "lib"@,
    ]);
    assert(NixInputsMapping.mapped(s).take(s.len() as int) =~= s);
    if s.len() >= 2 {
        assert(NixInputsPrimeMapping.mapped(s) =~= seq!["inputs"@, s[0], s[1], sys] + s.skip(2));
    }
    if s.len() >= 1 {
        assert(NixSelfPrimeMapping.mapped(s) =~= seq![s[0], sys] + s.skip(1));
    }
}

/// Every mapping but `pkgs` offers every name found, in the order found,
/// as a field without sort text, whatever its value evaluated to.
pub proof fn law_field_mappings_offer_every_name(c: Seq<CandidateView>)
    ensures
        NixLibMapping.entries(c).len() == c.len(),
        NixInputsMapping.entries(c).len() == c.len(),
        NixInputsPrimeMapping.entries(c).len() == c.len(),
        NixSelfPrimeMapping.entries(c).len() == c.len(),
        NixSelfMapping.entries(c).len() == c.len(),
        forall|i: int|
            0 <= i < c.len() ==> {
                &&& #[trigger] NixLibMapping.entries(c)[i] == (c[i].0, CompletionKind::Field, None::<Seq<char>>)
                &&& NixInputsMapping.entries(c)[i] == (c[i].0, CompletionKind::Field, None::<Seq<char>>)
                &&& NixInputsPrimeMapping.entries(c)[i] == (c[i].0, CompletionKind::Field, None::<Seq<char>>)
                &&& NixSelfPrimeMapping.entries(c)[i] == (c[i].0, CompletionKind::Field, None::<Seq<char>>)
                &&& NixSelfMapping.entries(c)[i] == (c[i].0, CompletionKind::Field, None::<Seq<char>>)
            },
{
}

/// A value is offered as a function exactly when it is a function, or an
/// attribute set from which `__functor` could be selected; functions sort
/// under `0000_`, every other value under `9999_`, followed by the name.
pub proof fn law_value_classification(name: Seq<char>, probe: ValueProbe)
    ensures
        (kind_of(probe) == CompletionKind::Function) == (probe.value_type == NixValueType::Function
            || (probe.value_type == NixValueType::AttrSet && probe.has_functor)),
        package_entry(name, probe).0 == name,
        package_entry(name, probe).1 == kind_of(probe),
        package_entry(name, probe).2 == Some(
            (if kind_of(probe) == CompletionKind::Function {
                "0000_"@
            } else {
                "9999_"@
            }) + name,
        ),
{
    reveal_strlit("0000");
    reveal_strlit("9999");
    reveal_strlit("_");
    reveal_strlit("0000_");
    reveal_strlit("9999_");
    assert("0000"@ + "_"@ =~= "0000_"@);
    assert("9999"@ + "_"@ =~= "9999_"@);
    assert(sort_priority(probe) + "_"@ + name =~= (sort_priority(probe) + "_"@) + name);
}

/// When every value evaluated, `pkgs` offers every name, in order, each
/// classified by its value.
pub proof fn law_packages_offer_every_evaluated_name(c: Seq<CandidateView>)
    requires
        forall|i: int| 0 <= i < c.len() ==> (#[trigger] c[i]).1 is Some,
    ensures
        NixpkgMapping.entries(c).len() == c.len(),
        forall|i: int|
            0 <= i < c.len() ==> #[trigger] NixpkgMapping.entries(c)[i] == package_entry(
                c[i].0,
                c[i].1.unwrap(),
            ),
    decreases c.len(),
{
    if c.len() > 0 {
        let d = c.drop_last();
        assert forall|i: int| 0 <= i < d.len() implies (#[trigger] d[i]).1 is Some by {
            assert(d[i] == c[i]);
        }
        law_packages_offer_every_evaluated_name(d);
        assert forall|i: int| 0 <= i < c.len() implies #[trigger] NixpkgMapping.entries(c)[i]
            == package_entry(c[i].0, c[i].1.unwrap()) by {
            assert(c[c.len() - 1].1 is Some);
            if i < c.len() - 1 {
                assert(d[i] == c[i]);
            }
        }
    }
}

/// A name whose value did not evaluate adds nothing to what `pkgs` offers.
pub proof fn law_packages_skip_unevaluated_name(c: Seq<CandidateView>, i: int)
    requires
        0 <= i < c.len(),
        c[i].1 is None,
    ensures
        NixpkgMapping.entries(c) == NixpkgMapping.entries(c.remove(i)),
    decreases c.len(),
{
    if i == c.len() - 1 {
        assert(c.remove(i) =~= c.drop_last());
    } else {
        law_packages_skip_unevaluated_name(c.drop_last(), i);
        assert(c.remove(i).drop_last() =~= c.drop_last().remove(i));
        assert(c.remove(i).last() == c.last());
        assert(c.remove(i).len() > 0);
    }
}

} // verus!
