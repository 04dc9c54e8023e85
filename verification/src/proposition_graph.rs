//! The proposition graph of a target: single propositions and the premise
//! conjunctions (groups) that conclude them, linked by factors, grown
//! backward from the target through the stored implications.

use vstd::prelude::*;
use std::rc::Rc;
use crate::error::BayesError;
use crate::objects::{
    Conjunction, Implication, ImplicationView, Proposition, PropositionView, conjunction_eq,
    conjunction_text, duplicate_propositions, proposition_eq, proposition_text, proposition_views,
};
use crate::search::{
    FactorView, PropositionFactor, backimplications, extract_backimplications_from_proposition,
    factor_views, implication_views, implication_well_formed, lemma_backimplications_facts,
    premises_are_facts,
};
use crate::objects::is_fact_view;
use crate::reach_bound::{lemma_reach_finite, reach_universe};
use vstd::pervasive::unreached;

verus! {

/// A node of the graph, abstractly.
pub enum NodeView {
    Single(PropositionView),
    Group(Seq<PropositionView>),
}

/// A node holds one proposition or a premise conjunction.
#[derive(Clone, Debug)]
pub enum GenericNodeType {
    Single(Proposition),
    Group(Conjunction),
}

/// A node of the proposition graph.
#[derive(Clone, Debug)]
pub struct PropositionNode {
    pub node: GenericNodeType,
}

impl View for PropositionNode {
    type V = NodeView;

    open spec fn view(&self) -> NodeView {
        match self.node {
            GenericNodeType::Single(p) => NodeView::Single(p@),
            GenericNodeType::Group(g) => NodeView::Group(g@),
        }
    }
}

/// `(text)`, the text being the proposition's or the conjunction's search string.
pub open spec fn node_text(n: NodeView) -> Seq<char> {
    "("@ + match n {
        NodeView::Single(p) => proposition_text(p),
        NodeView::Group(g) => conjunction_text(g),
    } + ")"@
}

/// The views of a vector of nodes.
pub open spec fn node_views(v: Seq<PropositionNode>) -> Seq<NodeView> {
    v.map_values(|n: PropositionNode| n@)
}

impl PropositionNode {
    /// The node of a single proposition.
    pub fn from_single(proposition: &Proposition) -> (r: PropositionNode)
        ensures
            r@ == NodeView::Single(proposition@),
    {
        PropositionNode { node: GenericNodeType::Single(proposition.duplicate()) }
    }

    /// The node of a premise conjunction.
    pub fn from_group(group: &Conjunction) -> (r: PropositionNode)
        ensures
            r@ == NodeView::Group(group@),
    {
        PropositionNode { node: GenericNodeType::Group(group.duplicate()) }
    }

    /// `(text)` with the node's search string.
    pub fn debug_string(&self) -> (s: String)
        ensures
            s@ == node_text(self@),
    {
        let part = match &self.node {
            GenericNodeType::Single(proposition) => proposition.search_string(),
            GenericNodeType::Group(group) => group.search_string(),
        };
        let mut s = String::from_str("(");
        s.append(part.as_str());
        s.append(")");
        s
    }

    pub fn is_single(&self) -> (r: bool)
        ensures
            r == (self@ is Single),
    {
        match &self.node {
            GenericNodeType::Single(_) => true,
            GenericNodeType::Group(_) => false,
        }
    }

    pub fn is_group(&self) -> (r: bool)
        ensures
            r == (self@ is Group),
    {
        !self.is_single()
    }

    /// The proposition of a single node.
    pub fn extract_single(&self) -> (p: Proposition)
        requires
            self@ is Single,
        ensures
            self@ == NodeView::Single(p@),
    {
        match &self.node {
            GenericNodeType::Single(proposition) => proposition.duplicate(),
            GenericNodeType::Group(_) => {
                proof {
                    assert(false);
                }
                Proposition { roles: Vec::new() }
            },
        }
    }

    /// The conjunction of a group node.
    pub fn extract_group(&self) -> (g: Conjunction)
        requires
            self@ is Group,
        ensures
            self@ == NodeView::Group(g@),
    {
        match &self.node {
            GenericNodeType::Group(group) => group.duplicate(),
            GenericNodeType::Single(_) => {
                proof {
                    assert(false);
                }
                Conjunction { terms: Vec::new() }
            },
        }
    }

    /// A copy with the same view.
    pub fn duplicate(&self) -> (r: PropositionNode)
        ensures
            r@ == self@,
    {
        match &self.node {
            GenericNodeType::Single(p) => PropositionNode::from_single(p),
            GenericNodeType::Group(g) => PropositionNode::from_group(g),
        }
    }
}

/// Whether two nodes are the same.
pub fn node_eq(a: &PropositionNode, b: &PropositionNode) -> (r: bool)
    ensures
        r == (a@ == b@),
{
    match (&a.node, &b.node) {
        (GenericNodeType::Single(x), GenericNodeType::Single(y)) => proposition_eq(x, y),
        (GenericNodeType::Group(x), GenericNodeType::Group(y)) => conjunction_eq(x, y),
        _ => false,
    }
}

/// Some factor has premise `g` and conclusion `c`.
pub open spec fn has_factor(fs: Seq<FactorView>, g: Seq<PropositionView>, c: PropositionView) -> bool {
    exists|i: int| 0 <= i < fs.len() && (#[trigger] fs[i]).premise == g && fs[i].conclusion == c
}

/// Some factor has premise `g`.
pub open spec fn is_premise(fs: Seq<FactorView>, g: Seq<PropositionView>) -> bool {
    exists|i: int| 0 <= i < fs.len() && (#[trigger] fs[i]).premise == g
}

/// `m` is a parent of `n`: a group that concludes the single `n`, or a term
/// of the group `n`.
pub open spec fn is_parent(fs: Seq<FactorView>, m: NodeView, n: NodeView) -> bool {
    match n {
        NodeView::Single(c) => match m {
            NodeView::Group(g) => has_factor(fs, g, c),
            NodeView::Single(_) => false,
        },
        NodeView::Group(g) => match m {
            NodeView::Single(t) => g.contains(t),
            NodeView::Group(_) => false,
        },
    }
}

/// `m` is a child of `n`: a premise group that has the single `n` as a
/// term, or a single that the group `n` concludes.
pub open spec fn is_child(fs: Seq<FactorView>, m: NodeView, n: NodeView) -> bool {
    match n {
        NodeView::Single(t) => match m {
            NodeView::Group(g) => is_premise(fs, g) && g.contains(t),
            NodeView::Single(_) => false,
        },
        NodeView::Group(g) => match m {
            NodeView::Single(c) => has_factor(fs, g, c),
            NodeView::Group(_) => false,
        },
    }
}

/// The implication of the last factor from `g` to `c`.
pub open spec fn last_inference(fs: Seq<FactorView>, g: Seq<PropositionView>, c: PropositionView) -> ImplicationView
    decreases fs.len(),
{
    if fs.len() == 0 {
        arbitrary()
    } else if fs.last().premise == g && fs.last().conclusion == c {
        fs.last().inference
    } else {
        last_inference(fs.drop_last(), g, c)
    }
}

/// Pushing `a` adds exactly `a` to what the sequence contains.
pub proof fn lemma_push_contains<A>(s: Seq<A>, a: A)
    ensures
        forall|x: A| #[trigger] s.push(a).contains(x) <==> (s.contains(x) || x == a),
{
    assert forall|x: A| #[trigger] s.push(a).contains(x) <==> (s.contains(x) || x == a) by {
        if x == a {
            assert(s.push(a)[s.len() as int] == a);
        }
        if s.contains(x) {
            let k = choose|k: int| 0 <= k < s.len() && s[k] == x;
            assert(s.push(a)[k] == x);
        }
        if s.push(a).contains(x) {
            let k = choose|k: int| 0 <= k < s.push(a).len() && s.push(a)[k] == x;
            if k < s.len() {
                assert(s[k] == x);
            }
        }
    }
}

/// The views of a vector of conjunctions.
pub open spec fn conjunction_views(v: Seq<Conjunction>) -> Seq<Seq<PropositionView>> {
    v.map_values(|g: Conjunction| g@)
}

fn push_unique_conjunction(v: &mut Vec<Conjunction>, g: &Conjunction)
    requires
        conjunction_views(old(v)@).no_duplicates(),
    ensures
        conjunction_views(final(v)@).no_duplicates(),
        forall|x: Seq<PropositionView>|
            conjunction_views(final(v)@).contains(x) <==> (conjunction_views(old(v)@).contains(x)
                || x == g@),
{
    let mut i: usize = 0;
    while i < v.len()
        invariant
            0 <= i <= v.len(),
            v@ == old(v)@,
            conjunction_views(old(v)@).no_duplicates(),
            forall|k: int| 0 <= k < i ==> (#[trigger] v@[k])@ != g@,
        decreases v.len() - i,
    {
        if conjunction_eq(&v[i], g) {
            proof {
                assert(conjunction_views(v@)[i as int] == g@);
            }
            return;
        }
        i += 1;
    }
    let ghost before = conjunction_views(v@);
    v.push(g.duplicate());
    proof {
        assert(conjunction_views(v@) =~= before.push(g@));
        assert(!before.contains(g@));
        lemma_push_contains(before, g@);
    }
}

fn push_unique_proposition(v: &mut Vec<Proposition>, p: &Proposition)
    requires
        proposition_views(old(v)@).no_duplicates(),
    ensures
        proposition_views(final(v)@).no_duplicates(),
        forall|x: PropositionView|
            proposition_views(final(v)@).contains(x) <==> (proposition_views(old(v)@).contains(x)
                || x == p@),
        proposition_views(old(v)@).contains(p@) ==> final(v)@ == old(v)@,
        !proposition_views(old(v)@).contains(p@) ==> proposition_views(final(v)@)
            == proposition_views(old(v)@).push(p@),
{
    let mut i: usize = 0;
    while i < v.len()
        invariant
            0 <= i <= v.len(),
            v@ == old(v)@,
            proposition_views(old(v)@).no_duplicates(),
            forall|k: int| 0 <= k < i ==> (#[trigger] v@[k])@ != p@,
        decreases v.len() - i,
    {
        if proposition_eq(&v[i], p) {
            proof {
                assert(proposition_views(v@)[i as int] == p@);
            }
            return;
        }
        i += 1;
    }
    let ghost before = proposition_views(v@);
    v.push(p.duplicate());
    proof {
        assert(proposition_views(v@) =~= before.push(p@));
        assert(!before.contains(p@));
        lemma_push_contains(before, p@);
    }
}

/// Whether the view of `n` occurs among the first `upto` nodes of `v`.
fn contains_node(v: &Vec<PropositionNode>, upto: usize, n: &PropositionNode) -> (r: bool)
    requires
        upto <= v@.len(),
    ensures
        r == node_views(v@).take(upto as int).contains(n@),
{
    let mut i: usize = 0;
    while i < upto
        invariant
            0 <= i <= upto,
            upto <= v@.len(),
            forall|k: int| 0 <= k < i ==> (#[trigger] v@[k])@ != n@,
        decreases upto - i,
    {
        if node_eq(&v[i], n) {
            proof {
                assert(node_views(v@).take(upto as int)[i as int] == n@);
            }
            return true;
        }
        i += 1;
    }
    proof {
        if node_views(v@).take(upto as int).contains(n@) {
            let k = choose|k: int|
                0 <= k < upto && node_views(v@).take(upto as int)[k] == n@;
            assert(v@[k]@ == n@);
        }
    }
    false
}

fn push_unique_node(v: &mut Vec<PropositionNode>, n: PropositionNode)
    requires
        node_views(old(v)@).no_duplicates(),
    ensures
        node_views(final(v)@).no_duplicates(),
        forall|x: NodeView|
            node_views(final(v)@).contains(x) <==> (node_views(old(v)@).contains(x) || x == n@),
{
    proof {
        assert(node_views(v@).take(v@.len() as int) =~= node_views(v@));
    }
    if contains_node(v, v.len(), &n) {
        return;
    }
    let ghost before = node_views(v@);
    v.push(n);
    proof {
        assert(node_views(v@) =~= before.push(n@));
        lemma_push_contains(before, n@);
    }
}


/// Whether `p` is one of the terms of `g`.
fn conjunction_contains(g: &Conjunction, p: &Proposition) -> (r: bool)
    ensures
        r == g@.contains(p@),
{
    let mut i: usize = 0;
    while i < g.terms.len()
        invariant
            0 <= i <= g.terms.len(),
            forall|k: int| 0 <= k < i ==> (#[trigger] g@[k]) != p@,
        decreases g.terms.len() - i,
    {
        if proposition_eq(&g.terms[i], p) {
            assert(g@[i as int] == p@);
            return true;
        }
        i += 1;
    }
    false
}

/// A parent is exactly what has the node as a child, when every group
/// involved is the premise of some factor (as every group node of a built
/// graph is): the graph's backward and forward links agree.
pub proof fn lemma_parent_child_agree(fs: Seq<FactorView>, m: NodeView, n: NodeView)
    requires
        m matches NodeView::Group(g) ==> is_premise(fs, g),
        n matches NodeView::Group(g) ==> is_premise(fs, g),
    ensures
        is_parent(fs, m, n) <==> is_child(fs, n, m),
{
}

/// Every node appears after all of its parents.
pub open spec fn parents_before(fs: Seq<FactorView>, order: Seq<NodeView>) -> bool {
    forall|i: int, m: NodeView|
        0 <= i < order.len() && #[trigger] is_parent(fs, m, order[i]) ==> order.take(i).contains(m)
}

/// Every node left out has a parent that is left out.
pub open spec fn blocked_outside(fs: Seq<FactorView>, nodes: Seq<NodeView>, order: Seq<NodeView>) -> bool {
    forall|n: NodeView|
        #[trigger] nodes.contains(n) && !order.contains(n) ==> exists|m: NodeView|
            is_parent(fs, m, n) && !order.contains(m)
}

/// Every parent of a node of `nodes` has a lower rank than the node: the
/// parent links among `nodes` form no cycle.
pub open spec fn ranked(fs: Seq<FactorView>, nodes: Seq<NodeView>, rank: spec_fn(NodeView) -> nat) -> bool {
    forall|m: NodeView, n: NodeView| nodes.contains(n) && #[trigger] is_parent(fs, m, n) ==> rank(m) < rank(n)
}

/// Every parent of a node of `nodes` is itself one of `nodes`.
pub open spec fn parents_closed(fs: Seq<FactorView>, nodes: Seq<NodeView>) -> bool {
    forall|m: NodeView, n: NodeView| nodes.contains(n) && #[trigger] is_parent(fs, m, n) ==> nodes.contains(m)
}

/// An order that leaves out only nodes with a parent left out holds every
/// node, when the nodes hold their parents and the parent links form no
/// cycle.
pub proof fn lemma_bfs_order_complete(
    fs: Seq<FactorView>,
    nodes: Seq<NodeView>,
    order: Seq<NodeView>,
    rank: spec_fn(NodeView) -> nat,
)
    requires
        blocked_outside(fs, nodes, order),
        ranked(fs, nodes, rank),
        parents_closed(fs, nodes),
    ensures
        forall|n: NodeView| nodes.contains(n) ==> order.contains(n),
{
    assert forall|n: NodeView| nodes.contains(n) implies order.contains(n) by {
        lemma_node_in_order(fs, nodes, order, rank, n);
    }
}

proof fn lemma_node_in_order(
    fs: Seq<FactorView>,
    nodes: Seq<NodeView>,
    order: Seq<NodeView>,
    rank: spec_fn(NodeView) -> nat,
    n: NodeView,
)
    requires
        blocked_outside(fs, nodes, order),
        ranked(fs, nodes, rank),
        parents_closed(fs, nodes),
        nodes.contains(n),
    ensures
        order.contains(n),
    decreases rank(n),
{
    if !order.contains(n) {
        let m = choose|m: NodeView| is_parent(fs, m, n) && !order.contains(m);
        lemma_node_in_order(fs, nodes, order, rank, m);
    }
}

proof fn lemma_no_dup_subset_len<A>(s: Seq<A>, t: Seq<A>)
    requires
        s.no_duplicates(),
        forall|x: A| s.contains(x) ==> t.contains(x),
    ensures
        s.len() <= t.len(),
{
    s.unique_seq_to_set();
    t.lemma_cardinality_of_set();
    assert(s.to_set().subset_of(t.to_set()));
    vstd::set_lib::lemma_len_subset(s.to_set(), t.to_set());
}

/// Whether every node of `v` occurs among the first `upto` nodes of `order`.
fn all_contained(order: &Vec<PropositionNode>, upto: usize, v: &Vec<PropositionNode>) -> (r: bool)
    requires
        upto <= order@.len(),
    ensures
        r == forall|m: NodeView| node_views(v@).contains(m) ==> node_views(order@).take(upto as int).contains(m),
{
    let mut i: usize = 0;
    while i < v.len()
        invariant
            0 <= i <= v.len(),
            upto <= order@.len(),
            forall|k: int| 0 <= k < i ==> node_views(order@).take(upto as int).contains(#[trigger] node_views(v@)[k]),
        decreases v.len() - i,
    {
        if !contains_node(order, upto, &v[i]) {
            proof {
                assert(node_views(v@).contains(node_views(v@)[i as int]));
            }
            return false;
        }
        i += 1;
    }
    proof {
        assert forall|m: NodeView| node_views(v@).contains(m) implies node_views(order@).take(upto as int).contains(m) by {
            let k = choose|k: int| 0 <= k < node_views(v@).len() && node_views(v@)[k] == m;
        }
    }
    true
}

/// Group nodes for the given conjunctions, in order.
fn group_nodes(v: &Vec<Conjunction>) -> (r: Vec<PropositionNode>)
    ensures
        node_views(r@) == conjunction_views(v@).map_values(|g: Seq<PropositionView>| NodeView::Group(g)),
        conjunction_views(v@).no_duplicates() ==> node_views(r@).no_duplicates(),
        forall|m: NodeView|
            node_views(r@).contains(m) <==> (m matches NodeView::Group(g) && conjunction_views(
                v@,
            ).contains(g)),
{
    let mut r: Vec<PropositionNode> = Vec::new();
    let mut i: usize = 0;
    while i < v.len()
        invariant
            0 <= i <= v.len(),
            r@.len() == i,
            forall|k: int| 0 <= k < i ==> (#[trigger] r@[k])@ == NodeView::Group(v@[k]@),
        decreases v.len() - i,
    {
        r.push(PropositionNode::from_group(&v[i]));
        i += 1;
    }
    let ghost cv = conjunction_views(v@);
    let ghost nv = node_views(r@);
    proof {
        assert(nv =~= cv.map_values(|g: Seq<PropositionView>| NodeView::Group(g)));
        assert forall|m: NodeView| nv.contains(m) <==> (m matches NodeView::Group(g) && cv.contains(g)) by {
            if nv.contains(m) {
                let k = choose|k: int| 0 <= k < nv.len() && nv[k] == m;
                assert(cv[k] == v@[k]@);
            }
            if let NodeView::Group(g) = m {
                if cv.contains(g) {
                    let k = choose|k: int| 0 <= k < cv.len() && cv[k] == g;
                    assert(nv[k] == m);
                }
            }
        }
        if cv.no_duplicates() {
            assert forall|a: int, b: int| 0 <= a < nv.len() && 0 <= b < nv.len() && a != b implies nv[a] != nv[b] by {
                assert(cv[a] != cv[b]);
            }
        }
    }
    r
}

/// Single nodes for the given propositions, in order.
fn single_nodes(v: &Vec<Proposition>) -> (r: Vec<PropositionNode>)
    ensures
        node_views(r@) == proposition_views(v@).map_values(|p: PropositionView| NodeView::Single(p)),
        proposition_views(v@).no_duplicates() ==> node_views(r@).no_duplicates(),
        forall|m: NodeView|
            node_views(r@).contains(m) <==> (m matches NodeView::Single(p) && proposition_views(
                v@,
            ).contains(p)),
{
    let mut r: Vec<PropositionNode> = Vec::new();
    let mut i: usize = 0;
    while i < v.len()
        invariant
            0 <= i <= v.len(),
            r@.len() == i,
            forall|k: int| 0 <= k < i ==> (#[trigger] r@[k])@ == NodeView::Single(v@[k]@),
        decreases v.len() - i,
    {
        r.push(PropositionNode::from_single(&v[i]));
        i += 1;
    }
    let ghost pv = proposition_views(v@);
    let ghost nv = node_views(r@);
    proof {
        assert(nv =~= pv.map_values(|p: PropositionView| NodeView::Single(p)));
        assert forall|m: NodeView| nv.contains(m) <==> (m matches NodeView::Single(p) && pv.contains(p)) by {
            if nv.contains(m) {
                let k = choose|k: int| 0 <= k < nv.len() && nv[k] == m;
                assert(pv[k] == v@[k]@);
            }
            if let NodeView::Single(p) = m {
                if pv.contains(p) {
                    let k = choose|k: int| 0 <= k < pv.len() && pv[k] == p;
                    assert(nv[k] == m);
                }
            }
        }
        if pv.no_duplicates() {
            assert forall|a: int, b: int| 0 <= a < nv.len() && 0 <= b < nv.len() && a != b implies nv[a] != nv[b] by {
                assert(pv[a] != pv[b]);
            }
        }
    }
    r
}

/// The proposition graph grown backward from a target.
pub struct PropositionGraph {
    /// Every factor found, per expanded proposition in expansion order.
    pub factors: Vec<PropositionFactor>,
    /// The expanded propositions that no implication concludes.
    pub roots: Vec<Proposition>,
    /// The single and group nodes, each once.
    pub all_nodes: Vec<PropositionNode>,
    pub target: Proposition,
    /// The propositions whose factors were looked up, in order.
    pub expanded: Vec<Proposition>,
    /// Propositions reached but left unexpanded when the depth limit was hit.
    pub unexpanded: Vec<Proposition>,
}

impl PropositionGraph {
    /// The graph's factors, abstractly.
    pub open spec fn fviews(&self) -> Seq<FactorView> {
        factor_views(self.factors@)
    }

    /// The implication used by the last factor from `premise` to `conclusion`.
    pub fn get_inference_used(&self, premise: &Conjunction, conclusion: &Proposition) -> (r:
        Implication)
        requires
            has_factor(self.fviews(), premise@, conclusion@),
        ensures
            r@ == last_inference(self.fviews(), premise@, conclusion@),
    {
        let ghost fs = self.fviews();
        let mut i: usize = self.factors.len();
        proof {
            assert(fs.take(fs.len() as int) =~= fs);
        }
        while i > 0
            invariant
                0 <= i <= self.factors.len(),
                fs == self.fviews(),
                last_inference(fs, premise@, conclusion@) == last_inference(
                    fs.take(i as int),
                    premise@,
                    conclusion@,
                ),
                has_factor(fs.take(i as int), premise@, conclusion@),
            decreases i,
        {
            let f = &self.factors[i - 1];
            proof {
                assert(fs.take(i as int).drop_last() =~= fs.take(i - 1));
                assert(fs.take(i as int).last() == f@);
            }
            if conjunction_eq(&f.premise, premise) && proposition_eq(&f.conclusion, conclusion) {
                return f.inference.duplicate();
            }
            proof {
                let k = choose|k: int|
                    0 <= k < fs.take(i as int).len() && (#[trigger] fs.take(i as int)[k]).premise
                        == premise@ && fs.take(i as int)[k].conclusion == conclusion@;
                assert(k != i - 1);
                assert(fs.take(i - 1)[k] == fs.take(i as int)[k]);
            }
            i -= 1;
        }
        proof {
            let k = choose|k: int|
                0 <= k < fs.take(i as int).len() && (#[trigger] fs.take(i as int)[k]).premise
                    == premise@ && fs.take(i as int)[k].conclusion == conclusion@;
        }
        unreached()
    }

    /// The premise groups that have `key` as a term, each once.
    pub fn get_single_forward(&self, key: &Proposition) -> (r: Vec<Conjunction>)
        ensures
            conjunction_views(r@).no_duplicates(),
            forall|g: Seq<PropositionView>|
                #![trigger conjunction_views(r@).contains(g)]
                conjunction_views(r@).contains(g) <==> (is_premise(self.fviews(), g) && g.contains(
                    key@,
                )),
    {
        let ghost fs = self.fviews();
        let mut r: Vec<Conjunction> = Vec::new();
        let mut i: usize = 0;
        while i < self.factors.len()
            invariant
                0 <= i <= self.factors.len(),
                fs == self.fviews(),
                conjunction_views(r@).no_duplicates(),
                forall|g: Seq<PropositionView>|
                    #![trigger conjunction_views(r@).contains(g)]
                    conjunction_views(r@).contains(g) <==> (is_premise(fs.take(i as int), g)
                        && g.contains(key@)),
            decreases self.factors.len() - i,
        {
            let f = &self.factors[i];
            proof {
                assert(fs[i as int] == f@);
                assert forall|g: Seq<PropositionView>|
                    is_premise(fs.take(i + 1), g) <==> (is_premise(fs.take(i as int), g)
                        || g == f@.premise) by {
                    if is_premise(fs.take(i + 1), g) {
                        let k = choose|k: int|
                            0 <= k < fs.take(i + 1).len() && (#[trigger] fs.take(i + 1)[k]).premise
                                == g;
                        if k < i {
                            assert(fs.take(i as int)[k] == fs.take(i + 1)[k]);
                        }
                    }
                    if is_premise(fs.take(i as int), g) {
                        let k = choose|k: int|
                            0 <= k < fs.take(i as int).len() && (#[trigger] fs.take(
                                i as int,
                            )[k]).premise == g;
                        assert(fs.take(i + 1)[k] == fs.take(i as int)[k]);
                    }
                    if g == f@.premise {
                        assert(fs.take(i + 1)[i as int] == f@);
                    }
                }
            }
            let ghost before = conjunction_views(r@);
            if conjunction_contains(&f.premise, key) {
                push_unique_conjunction(&mut r, &f.premise);
            }
            proof {
                assert forall|g: Seq<PropositionView>|
                    conjunction_views(r@).contains(g) <==> (is_premise(fs.take(i + 1), g)
                        && g.contains(key@)) by {
                    if g == f@.premise {
                        assert(f.premise@ == f@.premise);
                    }
                    assert(before.contains(g) <==> (is_premise(fs.take(i as int), g) && g.contains(key@)));
                }
            }
            i += 1;
        }
        proof {
            assert(fs.take(fs.len() as int) =~= fs);
        }
        r
    }

    /// The premise groups that conclude `key`, each once.
    pub fn get_single_backward(&self, key: &Proposition) -> (r: Vec<Conjunction>)
        ensures
            conjunction_views(r@).no_duplicates(),
            forall|g: Seq<PropositionView>|
                conjunction_views(r@).contains(g) <==> has_factor(self.fviews(), g, key@),
    {
        let ghost fs = self.fviews();
        let mut r: Vec<Conjunction> = Vec::new();
        let mut i: usize = 0;
        while i < self.factors.len()
            invariant
                0 <= i <= self.factors.len(),
                fs == self.fviews(),
                conjunction_views(r@).no_duplicates(),
                forall|g: Seq<PropositionView>|
                    conjunction_views(r@).contains(g) <==> has_factor(fs.take(i as int), g, key@),
            decreases self.factors.len() - i,
        {
            let f = &self.factors[i];
            proof {
                assert(fs[i as int] == f@);
                assert forall|g: Seq<PropositionView>|
                    has_factor(fs.take(i + 1), g, key@) <==> (has_factor(fs.take(i as int), g, key@)
                        || (g == f@.premise && f@.conclusion == key@)) by {
                    if has_factor(fs.take(i + 1), g, key@) {
                        let k = choose|k: int|
                            0 <= k < fs.take(i + 1).len() && (#[trigger] fs.take(i + 1)[k]).premise
                                == g && fs.take(i + 1)[k].conclusion == key@;
                        if k < i {
                            assert(fs.take(i as int)[k] == fs.take(i + 1)[k]);
                        }
                    }
                    if has_factor(fs.take(i as int), g, key@) {
                        let k = choose|k: int|
                            0 <= k < fs.take(i as int).len() && (#[trigger] fs.take(
                                i as int,
                            )[k]).premise == g && fs.take(i as int)[k].conclusion == key@;
                        assert(fs.take(i + 1)[k] == fs.take(i as int)[k]);
                    }
                    if g == f@.premise && f@.conclusion == key@ {
                        assert(fs.take(i + 1)[i as int] == f@);
                    }
                }
            }
            let ghost before = conjunction_views(r@);
            if proposition_eq(&f.conclusion, key) {
                push_unique_conjunction(&mut r, &f.premise);
            }
            proof {
                assert forall|g: Seq<PropositionView>|
                    conjunction_views(r@).contains(g) <==> has_factor(fs.take(i + 1), g, key@) by {
                    if g == f@.premise {
                        assert(f.premise@ == f@.premise);
                    }
                    assert(before.contains(g) <==> has_factor(fs.take(i as int), g, key@));
                }
            }
            i += 1;
        }
        proof {
            assert(fs.take(fs.len() as int) =~= fs);
        }
        r
    }

    /// The propositions the premise group `key` concludes, each once.
    pub fn get_group_forward(&self, key: &Conjunction) -> (r: Vec<Proposition>)
        requires
            is_premise(self.fviews(), key@),
        ensures
            proposition_views(r@).no_duplicates(),
            forall|c: PropositionView|
                proposition_views(r@).contains(c) <==> has_factor(self.fviews(), key@, c),
    {
        self.conclusions_of(key)
    }

    /// Whether some factor has the premise group `key`, as every group node
    /// of a built graph has; the forward lookups of a group ask for it.
    pub fn is_premise_group(&self, key: &Conjunction) -> (r: bool)
        ensures
            r == is_premise(self.fviews(), key@),
    {
        let mut i: usize = 0;
        while i < self.factors.len()
            invariant
                0 <= i <= self.factors.len(),
                forall|k: int| 0 <= k < i ==> (#[trigger] self.fviews()[k]).premise != key@,
            decreases self.factors.len() - i,
        {
            if conjunction_eq(&self.factors[i].premise, key) {
                assert(self.fviews()[i as int].premise == key@);
                return true;
            }
            i += 1;
        }
        false
    }

    /// The terms of the premise group `key`.
    pub fn get_group_backward(&self, key: &Conjunction) -> (r: Vec<Proposition>)
        ensures
            proposition_views(r@) == key@,
    {
        duplicate_propositions(&key.terms)
    }

    /// The parents of `node`: the premise groups that conclude a single,
    /// or the terms of a group, in order.
    pub fn get_all_backward(&self, node: &PropositionNode) -> (r: Vec<PropositionNode>)
        ensures
            node@ is Single ==> node_views(r@).no_duplicates(),
            node@ matches NodeView::Group(g) ==> node_views(r@) == g.map_values(
                |p: PropositionView| NodeView::Single(p),
            ),
            forall|m: NodeView| node_views(r@).contains(m) <==> is_parent(self.fviews(), m, node@),
    {
        match &node.node {
            GenericNodeType::Single(proposition) => {
                let initial = self.get_single_backward(proposition);
                group_nodes(&initial)
            },
            GenericNodeType::Group(group) => {
                let initial = self.get_group_backward(group);
                single_nodes(&initial)
            },
        }
    }

    /// The children of `node`: the premise groups a single is a term of, or
    /// the singles a group concludes, each once.
    pub fn get_all_forward(&self, node: &PropositionNode) -> (r: Vec<PropositionNode>)
        requires
            node@ matches NodeView::Group(g) ==> is_premise(self.fviews(), g),
        ensures
            node_views(r@).no_duplicates(),
            forall|m: NodeView| node_views(r@).contains(m) <==> is_child(self.fviews(), m, node@),
    {
        match &node.node {
            GenericNodeType::Single(proposition) => {
                let initial = self.get_single_forward(proposition);
                group_nodes(&initial)
            },
            GenericNodeType::Group(group) => {
                let initial = self.get_group_forward(group);
                single_nodes(&initial)
            },
        }
    }

    /// The nodes in rounds: each round takes, in node order, the nodes not
    /// yet taken whose parents were all taken in earlier rounds; it stops
    /// when a round takes nothing. So every node comes after its parents, and
    /// a node is left out only when one of its parents is.
    pub fn get_bfs_order(&self) -> (r: Vec<PropositionNode>)
        ensures
            node_views(r@).no_duplicates(),
            forall|n: NodeView| node_views(r@).contains(n) ==> node_views(self.all_nodes@).contains(n),
            parents_before(self.fviews(), node_views(r@)),
            blocked_outside(self.fviews(), node_views(self.all_nodes@), node_views(r@)),
            forall|rank: spec_fn(NodeView) -> nat|
                ranked(self.fviews(), node_views(self.all_nodes@), rank) && parents_closed(
                    self.fviews(),
                    node_views(self.all_nodes@),
                ) ==> forall|n: NodeView| #[trigger]
                    node_views(self.all_nodes@).contains(n) ==> node_views(r@).contains(n),
    {
        let ghost fs = self.fviews();
        let ghost nodes = node_views(self.all_nodes@);
        let mut order: Vec<PropositionNode> = Vec::new();
        loop
            invariant
                fs == self.fviews(),
                nodes == node_views(self.all_nodes@),
                node_views(order@).no_duplicates(),
                forall|n: NodeView| node_views(order@).contains(n) ==> nodes.contains(n),
                parents_before(fs, node_views(order@)),
                order@.len() <= self.all_nodes@.len(),
            ensures
                node_views(order@).no_duplicates(),
                forall|n: NodeView| node_views(order@).contains(n) ==> nodes.contains(n),
                parents_before(fs, node_views(order@)),
                blocked_outside(fs, nodes, node_views(order@)),
            decreases self.all_nodes@.len() - order@.len(),
        {
            let snapshot = order.len();
            let ghost before = node_views(order@);
            let mut progress = false;
            let mut j: usize = 0;
            while j < self.all_nodes.len()
                invariant
                    fs == self.fviews(),
                    nodes == node_views(self.all_nodes@),
                    0 <= j <= self.all_nodes.len(),
                    snapshot <= order@.len(),
                    node_views(order@).take(snapshot as int) == before,
                    before.len() == snapshot,
                    !progress ==> order@.len() == snapshot,
                    progress ==> order@.len() > snapshot,
                    node_views(order@).no_duplicates(),
                    forall|n: NodeView| node_views(order@).contains(n) ==> nodes.contains(n),
                    parents_before(fs, node_views(order@)),
                    !progress ==> forall|k: int|
                        0 <= k < j ==> (before.contains(#[trigger] nodes[k]) || exists|m: NodeView|
                            is_parent(fs, m, nodes[k]) && !before.contains(m)),
                decreases self.all_nodes.len() - j,
            {
                let n = &self.all_nodes[j];
                proof {
                    assert(nodes[j as int] == n@);
                    assert(node_views(order@).take(order@.len() as int) =~= node_views(order@));
                }
                if !contains_node(&order, order.len(), n) {
                    let parents = self.get_all_backward(n);
                    if all_contained(&order, snapshot, &parents) {
                        let ghost prev = node_views(order@);
                        order.push(n.duplicate());
                        proof {
                            let now = node_views(order@);
                            assert(now =~= prev.push(n@));
                            lemma_push_contains(prev, n@);
                            assert(now.take(snapshot as int) =~= prev.take(snapshot as int));
                            assert forall|i: int, m: NodeView|
                                0 <= i < now.len() && #[trigger] is_parent(fs, m, now[i]) implies now.take(i).contains(m) by {
                                if i < prev.len() {
                                    assert(now.take(i) =~= prev.take(i));
                                    assert(prev[i] == now[i]);
                                } else {
                                    assert(node_views(parents@).contains(m));
                                    assert(before.contains(m));
                                    let k = choose|k: int| 0 <= k < before.len() && before[k] == m;
                                    assert(now.take(i)[k] == m);
                                }
                            }
                            assert forall|a: int, b: int| 0 <= a < now.len() && 0 <= b < now.len() && a != b implies now[a] != now[b] by {
                                if a == prev.len() && b < prev.len() {
                                    assert(prev.contains(now[b]));
                                }
                                if b == prev.len() && a < prev.len() {
                                    assert(prev.contains(now[a]));
                                }
                            }
                            assert(nodes.contains(n@));
                        }
                        progress = true;
                    } else {
                        proof {
                            if !progress {
                                let m = choose|m: NodeView| node_views(parents@).contains(m) && !node_views(order@).take(snapshot as int).contains(m);
                                assert(is_parent(fs, m, nodes[j as int]) && !before.contains(m));
                            }
                        }
                    }
                } else {
                    proof {
                        if !progress {
                            assert(node_views(order@) =~= before);
                        }
                    }
                }
                j += 1;
            }
            proof {
                lemma_no_dup_subset_len(node_views(order@), nodes);
            }
            if !progress {
                proof {
                    assert(node_views(order@) =~= before);
                    assert forall|n: NodeView| #[trigger] nodes.contains(n) && !before.contains(n) implies exists|m: NodeView|
                        is_parent(fs, m, n) && !before.contains(m) by {
                        let k = choose|k: int| 0 <= k < nodes.len() && nodes[k] == n;
                    }
                }
                break;
            }
        }
        proof {
            assert forall|rank: spec_fn(NodeView) -> nat|
                ranked(fs, nodes, rank) && parents_closed(fs, nodes) implies forall|n: NodeView| #[trigger]
                    nodes.contains(n) ==> node_views(order@).contains(n) by {
                lemma_bfs_order_complete(fs, nodes, node_views(order@), rank);
            }
        }
        order
    }

    /// The propositions that no implication concludes.
    pub fn get_roots(&self) -> (r: Vec<Proposition>)
        ensures
            proposition_views(r@) == proposition_views(self.roots@),
    {
        duplicate_propositions(&self.roots)
    }
}


/// The factors that conclude `c` (none when they cannot be found).
pub open spec fn factors_of(imps: Seq<ImplicationView>, c: PropositionView) -> Seq<FactorView> {
    match backimplications(imps, c) {
        Ok(fs) => fs,
        Err(_) => Seq::empty(),
    }
}

/// The premise terms of the factors of `s`.
pub open spec fn successors(imps: Seq<ImplicationView>, s: PropositionView) -> Set<PropositionView> {
    Set::new(
        |t: PropositionView|
            exists|i: int, j: int|
                0 <= i < factors_of(imps, s).len() && 0 <= j < factors_of(imps, s)[i].premise.len()
                    && #[trigger] factors_of(imps, s)[i].premise[j] == t,
    )
}

/// The propositions within `d` backward steps of `target`.
pub open spec fn reach_within(imps: Seq<ImplicationView>, target: PropositionView, d: nat) -> Set<
    PropositionView,
>
    decreases d,
{
    if d == 0 {
        Set::empty().insert(target)
    } else {
        let prev = reach_within(imps, target, (d - 1) as nat);
        prev.union(
            Set::new(
                |t: PropositionView|
                    exists|s: PropositionView| prev.contains(s) && #[trigger] successors(imps, s).contains(t),
            ),
        )
    }
}

/// The propositions within fewer than `d` steps.
pub open spec fn reach_before(imps: Seq<ImplicationView>, target: PropositionView, d: nat) -> Set<
    PropositionView,
> {
    if d == 0 {
        Set::empty()
    } else {
        reach_within(imps, target, (d - 1) as nat)
    }
}

/// The factors of the expanded propositions, in expansion order.
pub open spec fn factors_of_all(imps: Seq<ImplicationView>, ev: Seq<PropositionView>) -> Seq<FactorView>
    decreases ev.len(),
{
    if ev.len() == 0 {
        Seq::empty()
    } else {
        factors_of_all(imps, ev.drop_last()) + factors_of(imps, ev.last())
    }
}

/// The expanded propositions that no factor concludes, in expansion order.
pub open spec fn roots_of(imps: Seq<ImplicationView>, ev: Seq<PropositionView>) -> Seq<PropositionView>
    decreases ev.len(),
{
    if ev.len() == 0 {
        Seq::empty()
    } else {
        roots_of(imps, ev.drop_last()) + if factors_of(imps, ev.last()).len() == 0 {
            seq![ev.last()]
        } else {
            Seq::empty()
        }
    }
}

/// The nodes of a graph: a single for each expanded or unexpanded
/// proposition, a group for each premise of a factor.
pub open spec fn node_member(n: NodeView, ev: Seq<PropositionView>, uv: Seq<PropositionView>, fv: Seq<FactorView>) -> bool {
    match n {
        NodeView::Single(p) => ev.contains(p) || uv.contains(p),
        NodeView::Group(g) => is_premise(fv, g),
    }
}

/// `p` is some number of backward steps from `target`.
pub open spec fn reachable(imps: Seq<ImplicationView>, target: PropositionView, p: PropositionView) -> bool {
    exists|d: nat| #[trigger] reach_within(imps, target, d).contains(p)
}

/// What the graph of `target` holds when grown through `imps`: every
/// proposition any number of backward steps from the target is expanded
/// and none is left unexpanded, every expanded proposition's factors and
/// root status are recorded, and the nodes are exactly those of the
/// propositions and premise groups found.
pub open spec fn graph_built(g: PropositionGraph, imps: Seq<ImplicationView>, target: PropositionView) -> bool {
    let ev = proposition_views(g.expanded@);
    let uv = proposition_views(g.unexpanded@);
    &&& g.target@ == target
    &&& ev.no_duplicates()
    &&& g.unexpanded@.len() == 0
    &&& forall|p: PropositionView| #[trigger] ev.contains(p) <==> reachable(imps, target, p)
    &&& forall|p: PropositionView| #[trigger] ev.contains(p) ==> backimplications(imps, p) is Ok && is_fact_view(p)
    &&& g.fviews() == factors_of_all(imps, ev)
    &&& proposition_views(g.roots@) == roots_of(imps, ev)
    &&& node_views(g.all_nodes@).no_duplicates()
    &&& forall|n: NodeView| #[trigger] node_views(g.all_nodes@).contains(n) <==> node_member(n, ev, uv, g.fviews())
}

proof fn lemma_factor_source(imps: Seq<ImplicationView>, ev: Seq<PropositionView>, i: int) -> (r: (int, int))
    requires
        0 <= i < factors_of_all(imps, ev).len(),
    ensures
        0 <= r.0 < ev.len(),
        0 <= r.1 < factors_of(imps, ev[r.0]).len(),
        factors_of(imps, ev[r.0])[r.1] == factors_of_all(imps, ev)[i],
    decreases ev.len(),
{
    let a = factors_of_all(imps, ev.drop_last());
    if i < a.len() {
        let r = lemma_factor_source(imps, ev.drop_last(), i);
        assert(ev.drop_last()[r.0] == ev[r.0]);
        assert(factors_of_all(imps, ev)[i] == a[i]);
        r
    } else {
        assert(factors_of_all(imps, ev)[i] == factors_of(imps, ev.last())[i - a.len()]);
        (ev.len() - 1, i - a.len())
    }
}

proof fn lemma_root_source(imps: Seq<ImplicationView>, ev: Seq<PropositionView>, p: PropositionView)
    requires
        roots_of(imps, ev).contains(p),
    ensures
        ev.contains(p),
        factors_of(imps, p).len() == 0,
    decreases ev.len(),
{
    let a = roots_of(imps, ev.drop_last());
    if a.contains(p) {
        lemma_root_source(imps, ev.drop_last(), p);
        let k = choose|k: int| 0 <= k < ev.drop_last().len() && ev.drop_last()[k] == p;
        assert(ev[k] == p);
    } else {
        let k = choose|k: int| 0 <= k < roots_of(imps, ev).len() && roots_of(imps, ev)[k] == p;
        if k < a.len() {
            assert(roots_of(imps, ev)[k] == a[k]);
        }
        assert(ev[ev.len() - 1] == ev.last());
    }
}

/// The factor `f` of `g` links inside the graph: it concludes a reachable
/// proposition; its conclusion, its premise group and each premise term are
/// nodes; the group is a parent of the conclusion and each term a parent of
/// the group, and each of them the matching child the other way round.
pub open spec fn factor_linked(
    g: PropositionGraph,
    imps: Seq<ImplicationView>,
    target: PropositionView,
    f: FactorView,
) -> bool {
    let fs = g.fviews();
    let nodes = node_views(g.all_nodes@);
    &&& reachable(imps, target, f.conclusion)
    &&& nodes.contains(NodeView::Single(f.conclusion))
    &&& nodes.contains(NodeView::Group(f.premise))
    &&& is_parent(fs, NodeView::Group(f.premise), NodeView::Single(f.conclusion))
    &&& is_child(fs, NodeView::Single(f.conclusion), NodeView::Group(f.premise))
    &&& forall|j: int|
        0 <= j < f.premise.len() ==> {
            &&& nodes.contains(NodeView::Single(#[trigger] f.premise[j]))
            &&& is_parent(fs, NodeView::Single(f.premise[j]), NodeView::Group(f.premise))
            &&& is_child(fs, NodeView::Group(f.premise), NodeView::Single(f.premise[j]))
        }
}

/// In a built graph the backward and forward links agree and stay inside
/// the graph: the target is a node, every factor links inside the graph,
/// and no factor concludes a root.
pub proof fn lemma_built_graph_links(g: PropositionGraph, imps: Seq<ImplicationView>, target: PropositionView)
    requires
        graph_built(g, imps, target),
    ensures
        node_views(g.all_nodes@).contains(NodeView::Single(target)),
        forall|i: int| 0 <= i < g.fviews().len() ==> factor_linked(g, imps, target, #[trigger] g.fviews()[i]),
        forall|p: PropositionView|
            #[trigger] proposition_views(g.roots@).contains(p) ==> reachable(imps, target, p) && forall|grp: Seq<PropositionView>|
                !has_factor(g.fviews(), grp, p),
{
    let ev = proposition_views(g.expanded@);
    let uv = proposition_views(g.unexpanded@);
    let fs = g.fviews();
    assert(reach_within(imps, target, 0).contains(target));
    assert(reachable(imps, target, target));
    assert(node_member(NodeView::Single(target), ev, uv, fs));
    assert forall|i: int| 0 <= i < fs.len() implies factor_linked(g, imps, target, #[trigger] fs[i]) by {
        let (k, x) = lemma_factor_source(imps, ev, i);
        let c = ev[k];
        assert(ev.contains(c));
        lemma_backimplications_facts(imps, c);
        let f = fs[i];
        assert(f.conclusion == c);
        assert(node_member(NodeView::Single(c), ev, uv, fs));
        assert(is_premise(fs, f.premise));
        assert(node_member(NodeView::Group(f.premise), ev, uv, fs));
        assert(has_factor(fs, f.premise, c));
        let d = choose|d: nat| #[trigger] reach_within(imps, target, d).contains(c);
        assert forall|j: int| 0 <= j < f.premise.len() implies {
            &&& node_views(g.all_nodes@).contains(NodeView::Single(#[trigger] f.premise[j]))
            &&& is_parent(fs, NodeView::Single(f.premise[j]), NodeView::Group(f.premise))
            &&& is_child(fs, NodeView::Group(f.premise), NodeView::Single(f.premise[j]))
        } by {
            let t = f.premise[j];
            assert(factors_of(imps, c)[x].premise[j] == t);
            assert(successors(imps, c).contains(t));
            assert(reach_within(imps, target, d + 1).contains(t));
            assert(reachable(imps, target, t));
            assert(node_member(NodeView::Single(t), ev, uv, fs));
            assert(f.premise.contains(t));
        }
    }
    assert forall|p: PropositionView| #[trigger] proposition_views(g.roots@).contains(p) implies reachable(imps, target, p)
        && forall|grp: Seq<PropositionView>| !has_factor(fs, grp, p) by {
        lemma_root_source(imps, ev, p);
        assert forall|grp: Seq<PropositionView>| !has_factor(fs, grp, p) by {
            if has_factor(fs, grp, p) {
                let i = choose|i: int| 0 <= i < fs.len() && (#[trigger] fs[i]).premise == grp && fs[i].conclusion == p;
                let (k, x) = lemma_factor_source(imps, ev, i);
                assert(ev.contains(ev[k]));
                lemma_backimplications_facts(imps, ev[k]);
            }
        }
    }
}

/// On a built graph whose parent links form no cycle (a rank that every
/// parent link lowers), an order that leaves out only nodes with a parent
/// left out, as `get_bfs_order` gives, holds every node.
pub proof fn lemma_built_bfs_complete(
    g: PropositionGraph,
    imps: Seq<ImplicationView>,
    target: PropositionView,
    order: Seq<NodeView>,
    rank: spec_fn(NodeView) -> nat,
)
    requires
        graph_built(g, imps, target),
        blocked_outside(g.fviews(), node_views(g.all_nodes@), order),
        ranked(g.fviews(), node_views(g.all_nodes@), rank),
    ensures
        forall|n: NodeView| node_views(g.all_nodes@).contains(n) ==> order.contains(n),
{
    let fs = g.fviews();
    let nodes = node_views(g.all_nodes@);
    let ev = proposition_views(g.expanded@);
    let uv = proposition_views(g.unexpanded@);
    lemma_built_graph_links(g, imps, target);
    assert forall|m: NodeView, n: NodeView| nodes.contains(n) && #[trigger] is_parent(fs, m, n) implies nodes.contains(m) by {
        match n {
            NodeView::Single(c) => {
                if let NodeView::Group(p) = m {
                    let i = choose|i: int| 0 <= i < fs.len() && (#[trigger] fs[i]).premise == p && fs[i].conclusion == c;
                    assert(factor_linked(g, imps, target, fs[i]));
                }
            },
            NodeView::Group(p) => {
                if let NodeView::Single(t) = m {
                    assert(node_member(n, ev, uv, fs));
                    let i = choose|i: int| 0 <= i < fs.len() && (#[trigger] fs[i]).premise == p;
                    assert(factor_linked(g, imps, target, fs[i]));
                    let j = choose|j: int| 0 <= j < p.len() && p[j] == t;
                    assert(fs[i].premise[j] == t);
                }
            },
        }
    }
    lemma_bfs_order_complete(fs, nodes, order, rank);
}

/// The state at the start of round `r`: the propositions reached before
/// the round are expanded, those first reached in it wait unexpanded.
pub open spec fn round_state(g: PropositionGraph, imps: Seq<ImplicationView>, target: PropositionView, r: nat) -> bool {
    let ev = proposition_views(g.expanded@);
    let lv = proposition_views(g.unexpanded@);
    &&& g.target@ == target
    &&& ev.no_duplicates()
    &&& lv.no_duplicates()
    &&& forall|p: PropositionView| #[trigger] ev.contains(p) <==> reach_before(imps, target, r).contains(p)
    &&& forall|p: PropositionView| #[trigger] lv.contains(p) <==> (reach_within(imps, target, r).contains(p)
        && !reach_before(imps, target, r).contains(p))
    &&& forall|p: PropositionView| #[trigger] ev.contains(p) ==> backimplications(imps, p) is Ok
    &&& forall|p: PropositionView| (ev.contains(p) || lv.contains(p)) ==> #[trigger] is_fact_view(p)
    &&& g.fviews() == factors_of_all(imps, ev)
    &&& proposition_views(g.roots@) == roots_of(imps, ev)
    &&& node_views(g.all_nodes@).no_duplicates()
    &&& forall|n: NodeView| #[trigger] node_views(g.all_nodes@).contains(n) <==> node_member(n, ev, lv, g.fviews())
}

proof fn lemma_reach_monotone(imps: Seq<ImplicationView>, target: PropositionView, a: nat, b: nat)
    requires
        a <= b,
    ensures
        reach_within(imps, target, a).subset_of(reach_within(imps, target, b)),
    decreases b - a,
{
    if a < b {
        lemma_reach_monotone(imps, target, a, (b - 1) as nat);
    }
}

/// Once a round finds nothing new, no number of further steps does.
proof fn lemma_reach_fixed(imps: Seq<ImplicationView>, target: PropositionView, r: nat, d: nat)
    requires
        r >= 1,
        reach_within(imps, target, r).subset_of(reach_within(imps, target, (r - 1) as nat)),
    ensures
        reach_within(imps, target, d).subset_of(reach_within(imps, target, (r - 1) as nat)),
    decreases d,
{
    if d < r {
        lemma_reach_monotone(imps, target, d, (r - 1) as nat);
    } else {
        lemma_reach_fixed(imps, target, r, (d - 1) as nat);
        lemma_reach_monotone(imps, target, (r - 1) as nat, (d - 1) as nat);
        lemma_reach_monotone(imps, target, (r - 1) as nat, r);
        assert(reach_within(imps, target, (d - 1) as nat) =~= reach_within(imps, target, (r - 1) as nat));
        assert(reach_within(imps, target, (r - 1) as nat) =~= reach_within(imps, target, r));
        assert(reach_within(imps, target, d) =~= reach_within(imps, target, r));
    }
}

/// A sequence without duplicates that holds all of another and one more
/// element is longer.
proof fn lemma_no_dup_grows<A>(a: Seq<A>, b: Seq<A>, x: A)
    requires
        a.no_duplicates(),
        b.no_duplicates(),
        forall|p: A| a.contains(p) ==> b.contains(p),
        b.contains(x),
        !a.contains(x),
    ensures
        a.len() < b.len(),
{
    a.unique_seq_to_set();
    b.unique_seq_to_set();
    assert(a.to_set().insert(x).subset_of(b.to_set()));
    vstd::set_lib::lemma_len_subset(a.to_set().insert(x), b.to_set());
}

/// What is expanded at the start of a round lies in the finite set that
/// holds every reachable fact, so it is no longer than that set.
proof fn lemma_expanded_within(
    g: PropositionGraph,
    imps: Seq<ImplicationView>,
    target: PropositionView,
    r: nat,
    universe: Set<PropositionView>,
)
    requires
        round_state(g, imps, target, r),
        universe.finite(),
        forall|d: nat, p: PropositionView| #[trigger] reach_within(imps, target, d).contains(p) ==> universe.contains(p),
    ensures
        proposition_views(g.expanded@).len() <= universe.len(),
{
    let ev = proposition_views(g.expanded@);
    ev.unique_seq_to_set();
    assert forall|p: PropositionView| ev.to_set().contains(p) implies universe.contains(p) by {
        assert(reach_before(imps, target, r).contains(p));
        assert(reach_within(imps, target, (r - 1) as nat).contains(p));
    }
    vstd::set_lib::lemma_len_subset(ev.to_set(), universe);
}

proof fn lemma_round_end(
    imps: Seq<ImplicationView>,
    target: PropositionView,
    r: nat,
    lv: Seq<PropositionView>,
    nv: Seq<PropositionView>,
)
    requires
        forall|p: PropositionView| #[trigger] lv.contains(p) <==> (reach_within(imps, target, r).contains(p)
            && !reach_before(imps, target, r).contains(p)),
        forall|p: PropositionView| #[trigger] nv.contains(p) ==> !reach_within(imps, target, r).contains(p),
        forall|p: PropositionView|
            (reach_within(imps, target, r).contains(p) || nv.contains(p)) <==> (reach_within(imps, target, r).contains(p)
                || exists|k: int| 0 <= k < lv.len() && #[trigger] successors(imps, lv[k]).contains(p)),
    ensures
        forall|p: PropositionView| #[trigger] nv.contains(p) <==> (reach_within(imps, target, r + 1).contains(p)
            && !reach_within(imps, target, r).contains(p)),
{
    let cur = reach_within(imps, target, r);
    let nxt = reach_within(imps, target, r + 1);
    assert forall|p: PropositionView| #[trigger] nv.contains(p) <==> (nxt.contains(p) && !cur.contains(p)) by {
        if nv.contains(p) {
            let k = choose|k: int| 0 <= k < lv.len() && #[trigger] successors(imps, lv[k]).contains(p);
            assert(lv.contains(lv[k]));
            assert(cur.contains(lv[k]));
        }
        if nxt.contains(p) && !cur.contains(p) {
            let s = choose|s: PropositionView| cur.contains(s) && #[trigger] successors(imps, s).contains(p);
            if r > 0 && reach_before(imps, target, r).contains(s) {
                assert(reach_within(imps, target, r).contains(p));
            } else {
                assert(lv.contains(s));
                let k = choose|k: int| 0 <= k < lv.len() && lv[k] == s;
                assert(successors(imps, lv[k]).contains(p));
            }
        }
    }
}


/// Whether `p` is one of the propositions of `v`.
fn contains_proposition(v: &Vec<Proposition>, p: &Proposition) -> (r: bool)
    ensures
        r == proposition_views(v@).contains(p@),
{
    let mut i: usize = 0;
    while i < v.len()
        invariant
            0 <= i <= v.len(),
            forall|k: int| 0 <= k < i ==> (#[trigger] v@[k])@ != p@,
        decreases v.len() - i,
    {
        if proposition_eq(&v[i], p) {
            assert(proposition_views(v@)[i as int] == p@);
            return true;
        }
        i += 1;
    }
    proof {
        if proposition_views(v@).contains(p@) {
            let k = choose|k: int| 0 <= k < v@.len() && proposition_views(v@)[k] == p@;
            assert(v@[k]@ == p@);
        }
    }
    false
}

impl PropositionGraph {
    /// Expands every proposition waiting in `unexpanded`: records its
    /// factors (or makes it a root), and collects the premise terms not
    /// reached before as the next round's waiting propositions.
    fn expand_round(
        &mut self,
        implications: &Vec<Implication>,
        Ghost(target): Ghost<PropositionView>,
        Ghost(r): Ghost<nat>,
    ) -> (res: Result<(), BayesError>)
        requires
            round_state(*old(self), implication_views(implications@), target, r),
            forall|k: int|
                0 <= k < implications@.len() ==> implication_well_formed(#[trigger] implications@[k]@),
        ensures
            res is Ok ==> round_state(*final(self), implication_views(implications@), target, r + 1),
            res matches Err(e) ==> e matches BayesError::SubstitutionNotFound(n) && exists|s: PropositionView|
                reach_within(implication_views(implications@), target, r).contains(s) && backimplications(
                    implication_views(implications@),
                    s,
                ) == Err::<Seq<FactorView>, Seq<char>>(n@),
    {
        let ghost imps = implication_views(implications@);
        let level = duplicate_propositions(&self.unexpanded);
        let ghost ev0 = proposition_views(self.expanded@);
        let ghost lv = proposition_views(level@);
        let ghost reach_r = reach_within(imps, target, r);
        let ghost before_r = reach_before(imps, target, r);
        let mut next: Vec<Proposition> = Vec::new();
        let mut idx: usize = 0;
        proof {
            assert(ev0 + lv.take(0) =~= ev0);
            assert forall|p: PropositionView|
                (reach_r.contains(p) || proposition_views(next@).contains(p)) <==> (reach_r.contains(p)
                    || exists|k: int| 0 <= k < 0 && #[trigger] successors(imps, lv[k]).contains(p)) by {
                assert(proposition_views(next@).len() == 0);
            }
        }
        while idx < level.len()
            invariant
                imps == implication_views(implications@),
                forall|k: int|
                    0 <= k < implications@.len() ==> implication_well_formed(#[trigger] implications@[k]@),
                reach_r == reach_within(imps, target, r),
                before_r == reach_before(imps, target, r),
                0 <= idx <= level@.len(),
                lv == proposition_views(level@),
                lv == proposition_views(self.unexpanded@),
                self.target@ == target,
                lv.no_duplicates(),
                ev0.no_duplicates(),
                forall|p: PropositionView| #[trigger] lv.contains(p) <==> (reach_r.contains(p) && !before_r.contains(p)),
                forall|p: PropositionView| #[trigger] ev0.contains(p) <==> before_r.contains(p),
                proposition_views(self.expanded@) == ev0 + lv.take(idx as int),
                forall|p: PropositionView|
                    #[trigger] proposition_views(self.expanded@).contains(p) ==> backimplications(imps, p) is Ok,
                forall|p: PropositionView|
                    (ev0.contains(p) || lv.contains(p) || proposition_views(next@).contains(p)) ==> #[trigger] is_fact_view(p),
                self.fviews() == factors_of_all(imps, proposition_views(self.expanded@)),
                proposition_views(self.roots@) == roots_of(imps, proposition_views(self.expanded@)),
                node_views(self.all_nodes@).no_duplicates(),
                forall|n: NodeView| #[trigger] node_views(self.all_nodes@).contains(n) <==> match n {
                    NodeView::Single(p) => ev0.contains(p) || lv.contains(p) || proposition_views(next@).contains(p),
                    NodeView::Group(g) => is_premise(self.fviews(), g),
                },
                proposition_views(next@).no_duplicates(),
                forall|p: PropositionView| #[trigger] proposition_views(next@).contains(p) ==> !reach_r.contains(p),
                forall|p: PropositionView|
                    (reach_r.contains(p) || proposition_views(next@).contains(p)) <==> (reach_r.contains(p)
                        || exists|k: int| 0 <= k < idx && #[trigger] successors(imps, lv[k]).contains(p)),
            decreases level@.len() - idx,
        {
            let s = &level[idx];
            proof {
                assert(lv[idx as int] == s@);
                assert(lv.contains(s@));
                assert(is_fact_view(s@));
            }
            let fs = match extract_backimplications_from_proposition(implications, s) {
                Ok(fs) => fs,
                Err(e) => {
                    proof {
                        assert(reach_r.contains(s@));
                    }
                    return Err(e);
                },
            };
            let ghost fsv = factor_views(fs@);
            proof {
                lemma_backimplications_facts(imps, s@);
                assert(factors_of(imps, s@) == fsv);
            }
            let ghost ev_cur = proposition_views(self.expanded@);
            if fs.len() == 0 {
                self.roots.push(s.duplicate());
            }
            let ghost roots_after = proposition_views(self.roots@);
            proof {
                assert(roots_after =~= roots_of(imps, ev_cur) + if fsv.len() == 0 {
                    seq![s@]
                } else {
                    Seq::empty()
                });
            }
            // the factors and their premise groups
            let ghost fv0 = self.fviews();
            let mut i: usize = 0;
            while i < fs.len()
                invariant
                    0 <= i <= fs@.len(),
                    fsv == factor_views(fs@),
                    self.fviews() == fv0 + fsv.take(i as int),
                    proposition_views(self.expanded@) == ev0 + lv.take(idx as int),
                    proposition_views(self.expanded@) == ev_cur,
                    proposition_views(self.roots@) == roots_after,
                    lv == proposition_views(self.unexpanded@),
                    self.target@ == target,
                    node_views(self.all_nodes@).no_duplicates(),
                    forall|n: NodeView| #[trigger] node_views(self.all_nodes@).contains(n) <==> match n {
                        NodeView::Single(p) => ev0.contains(p) || lv.contains(p) || proposition_views(next@).contains(p),
                        NodeView::Group(g) => is_premise(self.fviews(), g),
                    },
                decreases fs@.len() - i,
            {
                let ghost fv_prev = self.fviews();
                self.factors.push(fs[i].duplicate_factor());
                proof {
                    assert(self.fviews() =~= fv_prev.push(fsv[i as int]));
                    assert(fv0 + fsv.take(i + 1) =~= (fv0 + fsv.take(i as int)).push(fsv[i as int]));
                    assert forall|g: Seq<PropositionView>| is_premise(self.fviews(), g) <==> (is_premise(fv_prev, g) || g == fsv[i as int].premise) by {
                        if is_premise(self.fviews(), g) {
                            let k = choose|k: int| 0 <= k < self.fviews().len() && (#[trigger] self.fviews()[k]).premise == g;
                            if k < fv_prev.len() {
                                assert(fv_prev[k] == self.fviews()[k]);
                            }
                        }
                        if is_premise(fv_prev, g) {
                            let k = choose|k: int| 0 <= k < fv_prev.len() && (#[trigger] fv_prev[k]).premise == g;
                            assert(self.fviews()[k] == fv_prev[k]);
                        }
                        if g == fsv[i as int].premise {
                            assert(self.fviews()[fv_prev.len() as int] == fsv[i as int]);
                        }
                    }
                }
                push_unique_node(&mut self.all_nodes, PropositionNode::from_group(&fs[i].premise));
                i += 1;
            }
            proof {
                assert(fsv.take(fsv.len() as int) =~= fsv);
            }
            // the premise terms not reached before wait for the next round
            let ghost nv_before = proposition_views(next@);
            let mut i: usize = 0;
            while i < fs.len()
                invariant
                    0 <= i <= fs@.len(),
                    fsv == factor_views(fs@),
                    fsv == factors_of(imps, s@),
                    premises_are_facts(fsv),
                    self.fviews() == fv0 + fsv,
                    proposition_views(self.expanded@) == ev_cur,
                    proposition_views(self.roots@) == roots_after,
                    lv == proposition_views(self.unexpanded@),
                    self.target@ == target,
                    reach_r == reach_within(imps, target, r),
                    before_r == reach_before(imps, target, r),
                    lv == proposition_views(level@),
                    proposition_views(self.expanded@) == ev0 + lv.take(idx as int),
                    forall|p: PropositionView| #[trigger] lv.contains(p) <==> (reach_r.contains(p) && !before_r.contains(p)),
                    forall|p: PropositionView| #[trigger] ev0.contains(p) <==> before_r.contains(p),
                    0 <= idx < lv.len(),
                    forall|p: PropositionView|
                        (ev0.contains(p) || lv.contains(p) || proposition_views(next@).contains(p)) ==> #[trigger] is_fact_view(p),
                    node_views(self.all_nodes@).no_duplicates(),
                    forall|n: NodeView| #[trigger] node_views(self.all_nodes@).contains(n) <==> match n {
                        NodeView::Single(p) => ev0.contains(p) || lv.contains(p) || proposition_views(next@).contains(p),
                        NodeView::Group(g) => is_premise(self.fviews(), g),
                    },
                    proposition_views(next@).no_duplicates(),
                    forall|p: PropositionView| #[trigger] proposition_views(next@).contains(p) ==> !reach_r.contains(p),
                    forall|p: PropositionView|
                        (reach_r.contains(p) || proposition_views(next@).contains(p)) <==> (reach_r.contains(p)
                            || (reach_r.contains(p) || nv_before.contains(p))
                            || exists|a: int, b: int| 0 <= a < i && 0 <= b < fsv[a].premise.len() && #[trigger] fsv[a].premise[b] == p),
                    forall|p: PropositionView|
                        (reach_r.contains(p) || nv_before.contains(p)) <==> (reach_r.contains(p)
                            || exists|k: int| 0 <= k < idx && #[trigger] successors(imps, lv[k]).contains(p)),
                decreases fs@.len() - i,
            {
                let terms = &fs[i].premise.terms;
                let mut j: usize = 0;
                while j < terms.len()
                    invariant
                        0 <= i < fs@.len(),
                        0 <= j <= terms@.len(),
                        terms@ == fs@[i as int].premise.terms@,
                        fsv == factor_views(fs@),
                        premises_are_facts(fsv),
                        self.fviews() == fv0 + fsv,
                        proposition_views(self.expanded@) == ev_cur,
                        proposition_views(self.roots@) == roots_after,
                        lv == proposition_views(self.unexpanded@),
                        self.target@ == target,
                        reach_r == reach_within(imps, target, r),
                        before_r == reach_before(imps, target, r),
                        lv == proposition_views(level@),
                        proposition_views(self.expanded@) == ev0 + lv.take(idx as int),
                        forall|p: PropositionView| #[trigger] lv.contains(p) <==> (reach_r.contains(p) && !before_r.contains(p)),
                        forall|p: PropositionView| #[trigger] ev0.contains(p) <==> before_r.contains(p),
                        0 <= idx < lv.len(),
                        forall|p: PropositionView|
                            (ev0.contains(p) || lv.contains(p) || proposition_views(next@).contains(p)) ==> #[trigger] is_fact_view(p),
                        node_views(self.all_nodes@).no_duplicates(),
                        forall|n: NodeView| #[trigger] node_views(self.all_nodes@).contains(n) <==> match n {
                            NodeView::Single(p) => ev0.contains(p) || lv.contains(p) || proposition_views(next@).contains(p),
                            NodeView::Group(g) => is_premise(self.fviews(), g),
                        },
                        proposition_views(next@).no_duplicates(),
                        forall|p: PropositionView| #[trigger] proposition_views(next@).contains(p) ==> !reach_r.contains(p),
                        forall|p: PropositionView|
                            (reach_r.contains(p) || proposition_views(next@).contains(p)) <==> (reach_r.contains(p)
                                || nv_before.contains(p)
                                || (exists|a: int, b: int| 0 <= a < i && 0 <= b < fsv[a].premise.len() && #[trigger] fsv[a].premise[b] == p)
                                || (exists|b: int| 0 <= b < j && #[trigger] fsv[i as int].premise[b] == p)),
                    decreases terms@.len() - j,
                {
                    let t = &terms[j];
                    proof {
                        assert(fsv[i as int].premise[j as int] == t@);
                        assert(is_fact_view(t@));
                    }
                    let known = contains_proposition(&self.expanded, t) || contains_proposition(&level, t);
                    proof {
                        if known {
                            if proposition_views(self.expanded@).contains(t@) {
                                let k = choose|k: int| 0 <= k < proposition_views(self.expanded@).len() && proposition_views(self.expanded@)[k] == t@;
                                if k < ev0.len() {
                                    assert(ev0[k] == t@);
                                    assert(ev0.contains(t@));
                                } else {
                                    assert(lv[k - ev0.len()] == t@);
                                    assert(lv.contains(t@));
                                }
                            }
                            assert(reach_r.contains(t@));
                        } else {
                            if reach_r.contains(t@) {
                                if before_r.contains(t@) {
                                    assert(ev0.contains(t@));
                                    let k = choose|k: int| 0 <= k < ev0.len() && ev0[k] == t@;
                                    assert(proposition_views(self.expanded@)[k] == t@);
                                }
                            }
                            assert(!reach_r.contains(t@));
                        }
                    }
                    if !known {
                        let ghost nv_prev = proposition_views(next@);
                        push_unique_proposition(&mut next, t);
                        push_unique_node(&mut self.all_nodes, PropositionNode::from_single(t));
                    }
                    j += 1;
                }
                i += 1;
            }
            proof {
                assert forall|p: PropositionView|
                    (reach_r.contains(p) || proposition_views(next@).contains(p)) <==> (reach_r.contains(p)
                        || exists|k: int| 0 <= k < idx + 1 && #[trigger] successors(imps, lv[k]).contains(p)) by {
                    if successors(imps, lv[idx as int]).contains(p) {
                        let (a, b) = choose|a: int, b: int| 0 <= a < factors_of(imps, lv[idx as int]).len() && 0 <= b < factors_of(imps, lv[idx as int])[a].premise.len()
                            && #[trigger] factors_of(imps, lv[idx as int])[a].premise[b] == p;
                        assert(fsv[a].premise[b] == p);
                    }
                    if exists|a: int, b: int| 0 <= a < fsv.len() && 0 <= b < fsv[a].premise.len() && #[trigger] fsv[a].premise[b] == p {
                        let (a, b) = choose|a: int, b: int| 0 <= a < fsv.len() && 0 <= b < fsv[a].premise.len() && #[trigger] fsv[a].premise[b] == p;
                        assert(successors(imps, lv[idx as int]).contains(p));
                    }
                }
            }
            let ghost ev_prev = proposition_views(self.expanded@);
            self.expanded.push(s.duplicate());
            proof {
                let ev_now = proposition_views(self.expanded@);
                assert(ev_now =~= ev_prev.push(s@));
                assert(ev0 + lv.take(idx + 1) =~= (ev0 + lv.take(idx as int)).push(lv[idx as int]));
                assert(ev_now.drop_last() =~= ev_prev);
                assert(ev_now.last() == s@);
                assert(self.fviews() =~= factors_of_all(imps, ev_now));
                lemma_push_contains(ev_prev, s@);
            }
            idx += 1;
        }
        let ghost nv = proposition_views(next@);
        proof {
            assert(lv.take(lv.len() as int) =~= lv);
            lemma_round_end(imps, target, r, lv, nv);
            let ev = proposition_views(self.expanded@);
            assert forall|p: PropositionView| #[trigger] ev.contains(p) <==> reach_before(imps, target, r + 1).contains(p) by {
                if ev.contains(p) {
                    let k = choose|k: int| 0 <= k < ev.len() && ev[k] == p;
                    if k < ev0.len() {
                        assert(ev0.contains(p));
                        if r > 0 {
                            lemma_reach_monotone(imps, target, (r - 1) as nat, r);
                        }
                    } else {
                        assert(lv.contains(p));
                    }
                }
                if reach_before(imps, target, r + 1).contains(p) {
                    if before_r.contains(p) {
                        assert(ev0.contains(p));
                        let k = choose|k: int| 0 <= k < ev0.len() && ev0[k] == p;
                        assert(ev[k] == p);
                    } else {
                        assert(lv.contains(p));
                        let k = choose|k: int| 0 <= k < lv.len() && lv[k] == p;
                        assert(ev[ev0.len() + k] == p);
                    }
                }
            }
            assert forall|a: int, b: int| 0 <= a < ev.len() && 0 <= b < ev.len() && a != b implies ev[a] != ev[b] by {
                if a < ev0.len() && b >= ev0.len() {
                    assert(ev0.contains(ev[a]));
                    assert(lv.contains(ev[b]));
                }
                if b < ev0.len() && a >= ev0.len() {
                    assert(ev0.contains(ev[b]));
                    assert(lv.contains(ev[a]));
                }
            }
        }
        self.unexpanded = next;
        Ok(())
    }
}

impl PropositionFactor {
    /// A copy with the same view.
    pub fn duplicate_factor(&self) -> (r: PropositionFactor)
        ensures
            r@ == self@,
    {
        PropositionFactor {
            premise: self.premise.duplicate(),
            conclusion: self.conclusion.duplicate(),
            inference: self.inference.duplicate(),
        }
    }
}


impl PropositionGraph {
    /// Grows the graph of the fact `target` through `implications` (each
    /// with a role map per premise term), breadth first, until a round finds
    /// no new proposition; an error when some reachable proposition has a
    /// premise term that cannot be instantiated.
    pub fn new_shared(implications: &Vec<Implication>, target: &Proposition) -> (r: Result<
        Rc<PropositionGraph>,
        BayesError,
    >)
        requires
            is_fact_view(target@),
            forall|k: int|
                0 <= k < implications@.len() ==> implication_well_formed(#[trigger] implications@[k]@),
        ensures
            match r {
                Ok(g) => graph_built(*g, implication_views(implications@), target@),
                Err(e) => e matches BayesError::SubstitutionNotFound(n) && exists|s: PropositionView|
                    reachable(implication_views(implications@), target@, s)
                        && backimplications(implication_views(implications@), s) == Err::<
                        Seq<FactorView>,
                        Seq<char>,
                    >(n@),
            },
    {
        match compute_backward_graph(implications, target) {
            Ok(g) => Ok(Rc::new(g)),
            Err(e) => Err(e),
        }
    }

    /// The premise groups that conclude `x` (its parents), each once.
    pub fn parents_of_proposition(&self, x: &Proposition) -> (r: Vec<Conjunction>)
        ensures
            conjunction_views(r@).no_duplicates(),
            forall|g: Seq<PropositionView>|
                conjunction_views(r@).contains(g) <==> has_factor(self.fviews(), g, x@),
    {
        self.get_single_backward(x)
    }

    /// The premise groups that have `root` as a term (its children), each once.
    pub fn children_of_proposition(&self, root: &Proposition) -> (r: Vec<Conjunction>)
        ensures
            conjunction_views(r@).no_duplicates(),
            forall|g: Seq<PropositionView>|
                #![trigger conjunction_views(r@).contains(g)]
                conjunction_views(r@).contains(g) <==> (is_premise(self.fviews(), g) && g.contains(
                    root@,
                )),
    {
        self.get_single_forward(root)
    }

    /// The terms of `conjunction` (its parents).
    pub fn parents_of_conjunct(&self, conjunction: &Conjunction) -> (r: Vec<Proposition>)
        ensures
            proposition_views(r@) == conjunction@,
    {
        duplicate_propositions(&conjunction.terms)
    }

    /// The propositions that `conjunction` concludes (its children), each once.
    pub fn children_of_conjunct(&self, conjunction: &Conjunction) -> (r: Vec<Proposition>)
        ensures
            proposition_views(r@).no_duplicates(),
            forall|c: PropositionView|
                proposition_views(r@).contains(c) <==> has_factor(self.fviews(), conjunction@, c),
    {
        self.conclusions_of(conjunction)
    }
}

/// The graph of the fact `proposition`, grown backward through `implications`
/// in rounds until a round finds no new proposition. A proposition reached
/// again is not expanded twice, so the rounds end also where implications
/// form a cycle: every reachable fact lies in one finite set.
pub fn compute_backward_graph(implications: &Vec<Implication>, proposition: &Proposition) -> (r:
    Result<PropositionGraph, BayesError>)
    requires
        is_fact_view(proposition@),
        forall|k: int|
            0 <= k < implications@.len() ==> implication_well_formed(#[trigger] implications@[k]@),
    ensures
        match r {
            Ok(g) => graph_built(g, implication_views(implications@), proposition@),
            Err(e) => e matches BayesError::SubstitutionNotFound(n) && exists|s: PropositionView|
                reachable(implication_views(implications@), proposition@, s)
                    && backimplications(implication_views(implications@), s) == Err::<
                    Seq<FactorView>,
                    Seq<char>,
                >(n@),
        },
{
    let ghost imps = implication_views(implications@);
    let ghost target = proposition@;
    let mut all_nodes: Vec<PropositionNode> = Vec::new();
    all_nodes.push(PropositionNode::from_single(proposition));
    let mut unexpanded: Vec<Proposition> = Vec::new();
    unexpanded.push(proposition.duplicate());
    let mut graph = PropositionGraph {
        factors: Vec::new(),
        roots: Vec::new(),
        all_nodes,
        target: proposition.duplicate(),
        expanded: Vec::new(),
        unexpanded,
    };
    proof {
        let ev = proposition_views(graph.expanded@);
        let lv = proposition_views(graph.unexpanded@);
        assert(ev =~= Seq::<PropositionView>::empty());
        assert(lv =~= seq![target]);
        assert(graph.fviews() =~= Seq::<FactorView>::empty());
        assert(proposition_views(graph.roots@) =~= Seq::<PropositionView>::empty());
        assert(node_views(graph.all_nodes@) =~= seq![NodeView::Single(target)]);
        assert forall|p: PropositionView| #[trigger] lv.contains(p) <==> (reach_within(imps, target, 0).contains(p)
            && !reach_before(imps, target, 0).contains(p)) by {
            if lv.contains(p) {
                let k = choose|k: int| 0 <= k < lv.len() && lv[k] == p;
            }
            if p == target {
                assert(lv[0] == p);
            }
        }
        assert forall|n: NodeView| #[trigger] node_views(graph.all_nodes@).contains(n) <==> node_member(n, ev, lv, graph.fviews()) by {
            if node_views(graph.all_nodes@).contains(n) {
                let k = choose|k: int| 0 <= k < 1 && node_views(graph.all_nodes@)[k] == n;
                assert(lv[0] == target);
            }
            if node_member(n, ev, lv, graph.fviews()) {
                if let NodeView::Single(p) = n {
                    let k = choose|k: int| 0 <= k < lv.len() && lv[k] == p;
                    assert(node_views(graph.all_nodes@)[0] == n);
                }
            }
        }
        assert forall|p: PropositionView| (ev.contains(p) || lv.contains(p)) implies #[trigger] is_fact_view(p) by {
            if lv.contains(p) {
                let k = choose|k: int| 0 <= k < lv.len() && lv[k] == p;
            }
        }
    }
    let ghost mut r: nat = 0;
    let ghost universe = reach_universe(imps, target);
    proof {
        lemma_reach_finite(imps, target);
    }
    loop
        invariant
            imps == implication_views(implications@),
            target == proposition@,
            forall|k: int|
                0 <= k < implications@.len() ==> implication_well_formed(#[trigger] implications@[k]@),
            round_state(graph, imps, target, r),
            universe == reach_universe(imps, target),
            universe.finite(),
            forall|d: nat, p: PropositionView| #[trigger] reach_within(imps, target, d).contains(p) ==> universe.contains(p),
        ensures
            round_state(graph, imps, target, r),
            graph.unexpanded@.len() == 0,
        decreases universe.len() - proposition_views(graph.expanded@).len(),
    {
        proof {
            lemma_expanded_within(graph, imps, target, r, universe);
        }
        if graph.unexpanded.len() == 0 {
            break;
        }
        let ghost ev0 = proposition_views(graph.expanded@);
        let ghost x = proposition_views(graph.unexpanded@)[0];
        proof {
            assert(proposition_views(graph.unexpanded@).contains(x));
        }
        match graph.expand_round(implications, Ghost(target), Ghost(r)) {
            Ok(()) => {},
            Err(e) => {
                return Err(e);
            },
        }
        proof {
            let ev1 = proposition_views(graph.expanded@);
            if r > 0 {
                lemma_reach_monotone(imps, target, (r - 1) as nat, r);
            }
            assert(ev1.contains(x));
            assert forall|p: PropositionView| ev0.contains(p) implies ev1.contains(p) by {
                assert(reach_before(imps, target, r).contains(p));
            }
            lemma_no_dup_grows(ev0, ev1, x);
            r = r + 1;
            lemma_expanded_within(graph, imps, target, r, universe);
        }
    }
    proof {
        let ev = proposition_views(graph.expanded@);
        if r == 0 {
            assert(reach_within(imps, target, 0).contains(target));
            assert(proposition_views(graph.unexpanded@).contains(target));
        }
        assert forall|p: PropositionView| #[trigger] reach_within(imps, target, r).contains(p)
            implies reach_within(imps, target, (r - 1) as nat).contains(p) by {
            if !reach_within(imps, target, (r - 1) as nat).contains(p) {
                assert(proposition_views(graph.unexpanded@).contains(p));
            }
        }
        assert forall|p: PropositionView| #[trigger] ev.contains(p) <==> reachable(imps, target, p) by {
            if reachable(imps, target, p) {
                let d = choose|d: nat| #[trigger] reach_within(imps, target, d).contains(p);
                lemma_reach_fixed(imps, target, r, d);
            }
            if ev.contains(p) {
                assert(reach_within(imps, target, (r - 1) as nat).contains(p));
            }
        }
    }
    Ok(graph)
}

impl PropositionGraph {
    fn conclusions_of(&self, key: &Conjunction) -> (r: Vec<Proposition>)
        ensures
            proposition_views(r@).no_duplicates(),
            forall|c: PropositionView|
                proposition_views(r@).contains(c) <==> has_factor(self.fviews(), key@, c),
    {
        let ghost fs = self.fviews();
        let mut r: Vec<Proposition> = Vec::new();
        let mut i: usize = 0;
        while i < self.factors.len()
            invariant
                0 <= i <= self.factors.len(),
                fs == self.fviews(),
                proposition_views(r@).no_duplicates(),
                forall|c: PropositionView|
                    proposition_views(r@).contains(c) <==> has_factor(fs.take(i as int), key@, c),
            decreases self.factors.len() - i,
        {
            let f = &self.factors[i];
            proof {
                assert(fs[i as int] == f@);
                assert forall|c: PropositionView|
                    has_factor(fs.take(i + 1), key@, c) <==> (has_factor(fs.take(i as int), key@, c)
                        || (key@ == f@.premise && f@.conclusion == c)) by {
                    if has_factor(fs.take(i + 1), key@, c) {
                        let k = choose|k: int|
                            0 <= k < fs.take(i + 1).len() && (#[trigger] fs.take(i + 1)[k]).premise
                                == key@ && fs.take(i + 1)[k].conclusion == c;
                        if k < i {
                            assert(fs.take(i as int)[k] == fs.take(i + 1)[k]);
                        }
                    }
                    if has_factor(fs.take(i as int), key@, c) {
                        let k = choose|k: int|
                            0 <= k < fs.take(i as int).len() && (#[trigger] fs.take(
                                i as int,
                            )[k]).premise == key@ && fs.take(i as int)[k].conclusion == c;
                        assert(fs.take(i + 1)[k] == fs.take(i as int)[k]);
                    }
                    if key@ == f@.premise && f@.conclusion == c {
                        assert(fs.take(i + 1)[i as int] == f@);
                    }
                }
            }
            if conjunction_eq(&f.premise, key) {
                push_unique_proposition(&mut r, &f.conclusion);
            }
            i += 1;
        }
        proof {
            assert(fs.take(fs.len() as int) =~= fs);
        }
        r
    }
}

} // verus!
