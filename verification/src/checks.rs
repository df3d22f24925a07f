//! The safety-classification engine: the source-tree model, the finding data
//! entity, the deduplicated finding set, and the classification visitor.

use vstd::prelude::*;

verus! {

/// Whether a construct carries the escape-hatch (`unsafe`) modifier.
#[derive(Clone, Copy, Debug, PartialEq, Eq, Structural)]
pub enum Safety {
    Normal,
    Unsafe,
}

/// The closed set of syntactic categories in which the escape-hatch marker
/// can legally appear. Every category gets its own variant: a new carrier in
/// the grammar must add a variant here and a matching visitor case.
#[allow(non_camel_case_types)]
#[derive(Clone, Copy, Debug, PartialEq, Eq, Structural)]
pub enum UnsafeKind {
    unsafe_function,
    unsafe_impl,
    unsafe_impl_item,
    unsafe_block,
    unsafe_trait,
    unsafe_trait_item,
    unsafe_attr,
}

/// Mathematical identity of a finding: its kind and its formatted location.
pub type FindingKey = (UnsafeKind, Seq<char>);

/// One detected escape-hatch occurrence: a kind plus an opaque, already
/// formatted source-location string. Two findings are equal exactly when both
/// parts are equal; that pair is the de-duplication key.
#[derive(Debug)]
pub struct UnsafeCode {
    kind: UnsafeKind,
    occurences: String,
}

impl View for UnsafeCode {
    type V = FindingKey;

    closed spec fn view(&self) -> FindingKey {
        (self.kind, self.occurences@)
    }
}

impl UnsafeCode {
    /// Packs a kind and a formatted location into a finding.
    pub fn new(kind: UnsafeKind, occurences: String) -> (r: UnsafeCode)
        ensures
            r@.0 == kind,
            r@.1 == occurences@,
    {
        UnsafeCode { kind, occurences }
    }

    /// The syntactic category of this finding.
    pub fn kind(&self) -> (k: UnsafeKind)
        ensures
            k == self@.0,
    {
        self.kind
    }

    /// The formatted source location of this finding.
    pub fn occurences(&self) -> (s: &String)
        ensures
            s@ == self@.1,
    {
        &self.occurences
    }
}

impl PartialEq for UnsafeCode {
    fn eq(&self, other: &UnsafeCode) -> bool {
        self.kind == other.kind && self.occurences == other.occurences
    }
}

impl vstd::std_specs::cmp::PartialEqSpecImpl for UnsafeCode {
    open spec fn obeys_eq_spec() -> bool {
        true
    }

    open spec fn eq_spec(&self, other: &UnsafeCode) -> bool {
        self@ == other@
    }
}

/// The keys of a sequence of findings, in order.
pub open spec fn keys_of(s: Seq<UnsafeCode>) -> Seq<FindingKey> {
    s.map_values(|f: UnsafeCode| f@)
}

proof fn lemma_keys_push_to_set(s: Seq<UnsafeCode>, f: UnsafeCode)
    ensures
        keys_of(s.push(f)) == keys_of(s).push(f@),
        keys_of(s.push(f)).to_set() == keys_of(s).to_set().insert(f@),
{
    broadcast use vstd::seq_lib::lemma_seq_contains_after_push;

    assert(keys_of(s.push(f)) =~= keys_of(s).push(f@));
    assert(keys_of(s.push(f)).to_set() =~= keys_of(s).to_set().insert(f@));
}

/// A set of findings: membership matters, order and multiplicity do not.
/// Backed by a vector that never holds two findings with the same key, so
/// its length is the cardinality of the set it denotes.
pub struct FindingSet {
    items: Vec<UnsafeCode>,
}

impl View for FindingSet {
    type V = Set<FindingKey>;

    closed spec fn view(&self) -> Set<FindingKey> {
        keys_of(self.items@).to_set()
    }
}

impl FindingSet {
    /// Validity: the backing vector never holds two findings with one key.
    pub closed spec fn wf(self) -> bool {
        keys_of(self.items@).no_duplicates()
    }

    /// The empty finding set.
    pub fn new() -> (r: FindingSet)
        ensures
            r.wf(),
            r@ == Set::<FindingKey>::empty(),
    {
        let r = FindingSet { items: Vec::new() };
        proof {
            assert(r@ =~= Set::<FindingKey>::empty());
        }
        r
    }

    /// Adds one finding; inserting a finding whose key is already present
    /// leaves the set unchanged.
    pub fn insert(&mut self, f: UnsafeCode)
        requires
            old(self).wf(),
        ensures
            final(self).wf(),
            final(self)@ == old(self)@.insert(f@),
    {
        let n = self.items.len();
        let mut i: usize = 0;
        while i < n
            invariant
                *self == *old(self),
                old(self).wf(),
                n == self.items.len(),
                i <= n,
                forall|k: int| 0 <= k < i ==> keys_of(self.items@)[k] != f@,
            decreases n - i,
        {
            if self.items[i] == f {
                proof {
                    assert(keys_of(self.items@)[i as int] == f@);
                    assert(self@.contains(f@));
                    assert(self@ =~= old(self)@.insert(f@));
                }
                return;
            }
            i += 1;
        }
        self.items.push(f);
        proof {
            lemma_keys_push_to_set(old(self).items@, f);
            assert(keys_of(self.items@) == keys_of(old(self).items@).push(f@));
            assert(self@ =~= old(self)@.insert(f@));
        }
    }

    /// The number of distinct findings held.
    pub fn len(&self) -> (n: usize)
        requires
            self.wf(),
        ensures
            n == self@.len(),
    {
        proof {
            keys_of(self.items@).unique_seq_to_set();
        }
        self.items.len()
    }

    /// True exactly when no finding is held.
    pub fn is_empty(&self) -> (b: bool)
        ensures
            b == self@.is_empty(),
    {
        let b = self.items.len() == 0;
        proof {
            if b {
                assert(self@ =~= Set::<FindingKey>::empty());
            } else {
                assert(self@.contains(keys_of(self.items@)[0]));
            }
        }
        b
    }

    /// Moves every finding of `other` into `self`: set union.
    pub fn union_with(&mut self, other: FindingSet)
        requires
            old(self).wf(),
        ensures
            final(self).wf(),
            final(self)@ == old(self)@.union(other@),
    {
        let ghost pre_self = old(self)@;
        let ghost whole = other@;
        let mut rest = other;
        while rest.items.len() > 0
            invariant
                self.wf(),
                self@.union(keys_of(rest.items@).to_set()) =~= pre_self.union(whole),
            decreases rest.items.len(),
        {
            let ghost before = rest.items@;
            let f = rest.items.pop().unwrap();
            proof {
                assert(before =~= before.drop_last().push(before.last()));
                lemma_keys_push_to_set(before.drop_last(), before.last());
                assert(keys_of(before).to_set() == keys_of(
                    before.drop_last(),
                ).to_set().insert(f@));
            }
            self.insert(f);
            proof {
                assert(self@.union(keys_of(rest.items@).to_set()) =~= pre_self.union(whole));
            }
        }
        proof {
            assert(keys_of(rest.items@).to_set() =~= Set::<FindingKey>::empty());
            assert(self@ =~= pre_self.union(whole));
        }
    }

    /// Read access to the stored findings; their keys are pairwise distinct
    /// and together form exactly this set.
    pub fn items(&self) -> (r: &Vec<UnsafeCode>)
        requires
            self.wf(),
        ensures
            keys_of(r@).to_set() == self@,
            keys_of(r@).no_duplicates(),
    {
        &self.items
    }
}

/// One node of a parsed source unit, reduced to what classification reads:
/// the syntactic category, the escape-hatch flag, the formatted location of
/// the node's span, and the child nodes. Anything the grammar can nest is a
/// child; node kinds with no bearing on safety classification appear as
/// `Other` and are walked transparently.
pub enum SourceNode {
    /// A function definition.
    Function { safety: Safety, loc: String, nodes: Vec<SourceNode> },
    /// A nested code block.
    Block { safety: Safety, loc: String, nodes: Vec<SourceNode> },
    /// A type-implementation declaration.
    Impl { safety: Safety, loc: String, nodes: Vec<SourceNode> },
    /// A trait declaration.
    Trait { safety: Safety, loc: String, nodes: Vec<SourceNode> },
    /// A method declared inside a trait.
    TraitMethod { safety: Safety, loc: String, nodes: Vec<SourceNode> },
    /// A method declared inside an implementation.
    ImplMethod { safety: Safety, loc: String, nodes: Vec<SourceNode> },
    /// A declarative annotation, carrying its name.
    Attribute { name: String, loc: String },
    /// A macro invocation; its expansion is kept but deliberately opaque.
    Macro { nodes: Vec<SourceNode> },
    /// Any other node: classified as nothing, walked transparently.
    Other { nodes: Vec<SourceNode> },
}

/// One parsed source file: its path within the checkout and its tree.
pub struct SourceUnit {
    /// The file's path, as the checkout lists it.
    pub path: String,
    /// The root of the file's parsed tree.
    pub root: SourceNode,
}

/// The finding contributed by an escape-hatch flag on one carrier node.
pub open spec fn flag_findings(kind: UnsafeKind, safety: Safety, loc: Seq<char>) -> Set<
    FindingKey,
> {
    if safety == Safety::Unsafe {
        set![(kind, loc)]
    } else {
        Set::empty()
    }
}

/// The names held by a vector of attribute-name strings.
pub open spec fn names_set(v: Seq<String>) -> Set<Seq<char>> {
    Set::new(|n: Seq<char>| exists|i: int| 0 <= i < v.len() && v[i]@ == n)
}

/// Every finding in the tree rooted at `n`, given the set of flagged
/// attribute names. Macro invocations contribute nothing and are not
/// descended into: expansion content is out of scope by design.
pub open spec fn node_findings(n: SourceNode, flagged: Set<Seq<char>>) -> Set<FindingKey>
    decreases n,
{
    match n {
        SourceNode::Function { safety, loc, nodes } => flag_findings(
            UnsafeKind::unsafe_function,
            safety,
            loc@,
        ) + seq_findings(nodes@, flagged),
        SourceNode::Block { safety, loc, nodes } => flag_findings(
            UnsafeKind::unsafe_block,
            safety,
            loc@,
        ) + seq_findings(nodes@, flagged),
        SourceNode::Impl { safety, loc, nodes } => flag_findings(
            UnsafeKind::unsafe_impl,
            safety,
            loc@,
        ) + seq_findings(nodes@, flagged),
        SourceNode::Trait { safety, loc, nodes } => flag_findings(
            UnsafeKind::unsafe_trait,
            safety,
            loc@,
        ) + seq_findings(nodes@, flagged),
        SourceNode::TraitMethod { safety, loc, nodes } => flag_findings(
            UnsafeKind::unsafe_trait_item,
            safety,
            loc@,
        ) + seq_findings(nodes@, flagged),
        SourceNode::ImplMethod { safety, loc, nodes } => flag_findings(
            UnsafeKind::unsafe_impl_item,
            safety,
            loc@,
        ) + seq_findings(nodes@, flagged),
        SourceNode::Attribute { name, loc } => if flagged.contains(name@) {
            set![(UnsafeKind::unsafe_attr, loc@)]
        } else {
            Set::empty()
        },
        SourceNode::Macro { .. } => Set::empty(),
        SourceNode::Other { nodes } => seq_findings(nodes@, flagged),
    }
}

/// The union of the findings of a sequence of sibling nodes.
pub open spec fn seq_findings(s: Seq<SourceNode>, flagged: Set<Seq<char>>) -> Set<FindingKey>
    decreases s,
{
    if s.len() == 0 {
        Set::empty()
    } else {
        node_findings(s[0], flagged) + seq_findings(s.drop_first(), flagged)
    }
}

proof fn lemma_seq_findings_push(s: Seq<SourceNode>, x: SourceNode, flagged: Set<Seq<char>>)
    ensures
        seq_findings(s.push(x), flagged) == seq_findings(s, flagged) + node_findings(x, flagged),
    decreases s.len(),
{
    if s.len() == 0 {
        assert(s.push(x)[0] == x);
        assert(s.push(x).drop_first() =~= s);
        assert(seq_findings(s, flagged) =~= Set::<FindingKey>::empty());
        assert(seq_findings(s.push(x), flagged) =~= seq_findings(s, flagged) + node_findings(
            x,
            flagged,
        ));
    } else {
        assert(s.push(x)[0] == s[0]);
        assert(s.push(x).drop_first() =~= s.drop_first().push(x));
        lemma_seq_findings_push(s.drop_first(), x, flagged);
        assert(seq_findings(s.push(x), flagged) =~= seq_findings(s, flagged) + node_findings(
            x,
            flagged,
        ));
    }
}

proof fn lemma_seq_findings_take_step(s: Seq<SourceNode>, i: int, flagged: Set<Seq<char>>)
    requires
        0 <= i < s.len(),
    ensures
        seq_findings(s.take(i + 1), flagged) == seq_findings(s.take(i), flagged) + node_findings(
            s[i],
            flagged,
        ),
{
    assert(s.take(i + 1) =~= s.take(i).push(s[i]));
    lemma_seq_findings_push(s.take(i), s[i], flagged);
}

/// The classification visitor: walks source trees and accumulates every
/// escape-hatch occurrence into `locations`, deduplicated by kind and
/// location. `flagged_attrs` configures which declarative annotations count
/// as escape markers.
pub struct UnsafeCrate {
    /// The findings accumulated over every tree visited so far.
    pub locations: FindingSet,
    /// The names of the annotations that bypass a safety check.
    pub flagged_attrs: Vec<String>,
}

impl UnsafeCrate {
    /// True exactly when `name` is one of the flagged annotation names.
    fn is_flagged(&self, name: &String) -> (r: bool)
        ensures
            r == names_set(self.flagged_attrs@).contains(name@),
    {
        let n = self.flagged_attrs.len();
        let mut i: usize = 0;
        while i < n
            invariant
                n == self.flagged_attrs@.len(),
                i <= n,
                forall|k: int| 0 <= k < i ==> self.flagged_attrs@[k]@ != name@,
            decreases n - i,
        {
            if self.flagged_attrs[i] == *name {
                return true;
            }
            i += 1;
        }
        false
    }

    /// Records one finding when the carrier's flag is the escape marker.
    fn record(&mut self, kind: UnsafeKind, safety: Safety, loc: &String)
        requires
            old(self).locations.wf(),
        ensures
            final(self).locations.wf(),
            final(self).locations@ == old(self).locations@ + flag_findings(kind, safety, loc@),
            final(self).flagged_attrs == old(self).flagged_attrs,
    {
        match safety {
            Safety::Normal => {
                proof {
                    assert(self.locations@ =~= old(self).locations@ + flag_findings(
                        kind,
                        safety,
                        loc@,
                    ));
                }
            },
            Safety::Unsafe => {
                let record = UnsafeCode::new(kind, loc.clone());
                self.locations.insert(record);
                proof {
                    assert(self.locations@ =~= old(self).locations@ + flag_findings(
                        kind,
                        safety,
                        loc@,
                    ));
                }
            },
        }
    }

    /// Walks one node: classifies it if it is a carrier of the escape
    /// marker, then walks its children — except under a macro invocation,
    /// which is deliberately left opaque.
    pub fn visit_node(&mut self, n: &SourceNode)
        requires
            old(self).locations.wf(),
        ensures
            final(self).locations.wf(),
            final(self).locations@ == old(self).locations@ + node_findings(
                *n,
                names_set(old(self).flagged_attrs@),
            ),
            final(self).flagged_attrs == old(self).flagged_attrs,
        decreases *n,
    {
        match n {
            SourceNode::Function { safety, loc, nodes } => {
                self.record(UnsafeKind::unsafe_function, *safety, loc);
                self.visit_nodes(nodes);
            },
            SourceNode::Block { safety, loc, nodes } => {
                self.record(UnsafeKind::unsafe_block, *safety, loc);
                self.visit_nodes(nodes);
            },
            SourceNode::Impl { safety, loc, nodes } => {
                self.record(UnsafeKind::unsafe_impl, *safety, loc);
                self.visit_nodes(nodes);
            },
            SourceNode::Trait { safety, loc, nodes } => {
                self.record(UnsafeKind::unsafe_trait, *safety, loc);
                self.visit_nodes(nodes);
            },
            SourceNode::TraitMethod { safety, loc, nodes } => {
                self.record(UnsafeKind::unsafe_trait_item, *safety, loc);
                self.visit_nodes(nodes);
            },
            SourceNode::ImplMethod { safety, loc, nodes } => {
                self.record(UnsafeKind::unsafe_impl_item, *safety, loc);
                self.visit_nodes(nodes);
            },
            SourceNode::Attribute { name, loc } => {
                if self.is_flagged(name) {
                    let record = UnsafeCode::new(UnsafeKind::unsafe_attr, loc.clone());
                    self.locations.insert(record);
                }
                proof {
                    assert(self.locations@ =~= old(self).locations@ + node_findings(
                        *n,
                        names_set(old(self).flagged_attrs@),
                    ));
                }
            },
            SourceNode::Macro { .. } => {
                proof {
                    assert(self.locations@ =~= old(self).locations@ + node_findings(
                        *n,
                        names_set(old(self).flagged_attrs@),
                    ));
                }
            },
            SourceNode::Other { nodes } => {
                self.visit_nodes(nodes);
            },
        }
    }

    /// Walks a sequence of sibling nodes in order.
    fn visit_nodes(&mut self, nodes: &Vec<SourceNode>)
        requires
            old(self).locations.wf(),
        ensures
            final(self).locations.wf(),
            final(self).locations@ == old(self).locations@ + seq_findings(
                nodes@,
                names_set(old(self).flagged_attrs@),
            ),
            final(self).flagged_attrs == old(self).flagged_attrs,
        decreases nodes@,
    {
        let ghost pre_loc = self.locations@;
        let ghost fl = names_set(self.flagged_attrs@);
        let n = nodes.len();
        let mut i: usize = 0;
        proof {
            assert(seq_findings(nodes@.take(0), fl) =~= Set::<FindingKey>::empty());
            assert(self.locations@ =~= pre_loc + seq_findings(nodes@.take(0), fl));
        }
        while i < n
            invariant
                n == nodes@.len(),
                i <= n,
                self.locations.wf(),
                self.flagged_attrs == old(self).flagged_attrs,
                fl == names_set(old(self).flagged_attrs@),
                pre_loc == old(self).locations@,
                self.locations@ == pre_loc + seq_findings(nodes@.take(i as int), fl),
            decreases n - i,
        {
            self.visit_node(&nodes[i]);
            proof {
                lemma_seq_findings_take_step(nodes@, i as int, fl);
                assert(self.locations@ =~= pre_loc + seq_findings(nodes@.take(i as int + 1), fl));
            }
            i += 1;
        }
        proof {
            assert(nodes@.take(n as int) =~= nodes@);
        }
    }
}

/// The annotation names flagged by default: the single declarative marker
/// known to bypass a safety check.
pub open spec fn default_flagged() -> Set<Seq<char>> {
    set!["unsafe_destructor_blind_to_params"@]
}

/// Builds the default flagged-annotation configuration.
pub fn default_flagged_attrs() -> (r: Vec<String>)
    ensures
        names_set(r@) == default_flagged(),
{
    let mut v: Vec<String> = Vec::new();
    v.push("unsafe_destructor_blind_to_params".to_owned());
    proof {
        assert(v@[0]@ == "unsafe_destructor_blind_to_params"@);
        assert(names_set(v@) =~= default_flagged()) by {
            assert(names_set(v@).contains(v@[0]@));
        }
    }
    v
}

/// De-duplication is idempotent: visiting one tree twice and unioning the
/// two resulting finding sets leaves exactly the findings of one visit.
pub proof fn lemma_visit_twice_is_once(n: SourceNode, flagged: Set<Seq<char>>)
    ensures
        node_findings(n, flagged) + node_findings(n, flagged) == node_findings(n, flagged),
{
    assert(node_findings(n, flagged) + node_findings(n, flagged) =~= node_findings(n, flagged));
}

/// Macro opacity: a macro invocation contributes no findings, whatever its
/// expansion content holds — expansion is deliberately out of scope.
pub proof fn lemma_macro_opaque(nodes: Vec<SourceNode>, flagged: Set<Seq<char>>)
    ensures
        node_findings((SourceNode::Macro { nodes }), flagged) == Set::<FindingKey>::empty(),
{
}

} // verus!
