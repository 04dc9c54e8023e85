//! Pieces of exact inference over the proposition graph: the joint
//! assignments of a set of nodes, and the premise groups of a node's
//! backward neighbours.

use vstd::prelude::*;
use crate::objects::{proposition_eq, proposition_views, Conjunction, Proposition, PropositionView};
use crate::proposition_graph::{
    conjunction_views, has_factor, is_child, last_inference, node_eq, node_views, NodeView,
    PropositionGraph, PropositionNode,
};
use crate::search::{FactorView, PropositionFactor, factor_views};

verus! {

/// Whether bit `j` of `i` is set.
pub open spec fn bit_set(i: u64, j: u64) -> bool {
    (i >> j) & 1 == 1
}

/// Every assignment of true and false to `n` nodes, as many as `2^n`: in the
/// `i`-th, node `j` is true exactly when bit `j` of `i` is set.
pub fn compute_each_combination(propositions: &Vec<PropositionNode>) -> (r: Vec<Vec<bool>>)
    requires
        propositions@.len() < 64,
    ensures
        r@.len() == (1u64 << propositions@.len() as u64),
        forall|i: int|
            0 <= i < r@.len() ==> (#[trigger] r@[i])@.len() == propositions@.len() && forall|j: int|
                0 <= j < propositions@.len() ==> r@[i]@[j] == bit_set(i as u64, j as u64),
{
    let n: u64 = propositions.len() as u64;
    let total: u64 = 1u64 << n;
    let mut all: Vec<Vec<bool>> = Vec::new();
    let mut i: u64 = 0;
    while i < total
        invariant
            n == propositions@.len(),
            n < 64,
            total == (1u64 << n),
            i <= total,
            all@.len() == i,
            forall|a: int|
                0 <= a < i ==> (#[trigger] all@[a])@.len() == n && forall|j: int|
                    0 <= j < n ==> all@[a]@[j] == bit_set(a as u64, j as u64),
        decreases total - i,
    {
        let mut current: Vec<bool> = Vec::new();
        let mut j: u64 = 0;
        while j < n
            invariant
                n < 64,
                j <= n,
                current@.len() == j,
                forall|k: int| 0 <= k < j ==> current@[k] == bit_set(i, k as u64),
            decreases n - j,
        {
            let state = (i & (1u64 << j)) != 0;
            assert(state == bit_set(i, j)) by (bit_vector)
                requires
                    j < 64,
                    state == ((i & (1u64 << j)) != 0),
            ;
            current.push(state);
            j += 1;
        }
        all.push(current);
        i += 1;
    }
    all
}

/// The groups of the backward neighbours of a node, in order.
pub fn groups_from_backlinks(backlinks: &Vec<PropositionNode>) -> (r: Vec<Conjunction>)
    requires
        forall|k: int| 0 <= k < backlinks@.len() ==> (#[trigger] backlinks@[k])@ is Group,
    ensures
        r@.len() == backlinks@.len(),
        forall|k: int|
            0 <= k < backlinks@.len() ==> backlinks@[k]@ == NodeView::Group((#[trigger] r@[k])@),
{
    let mut result: Vec<Conjunction> = Vec::new();
    let mut i: usize = 0;
    while i < backlinks.len()
        invariant
            0 <= i <= backlinks.len(),
            forall|k: int| 0 <= k < backlinks@.len() ==> (#[trigger] backlinks@[k])@ is Group,
            result@.len() == i,
            forall|k: int| 0 <= k < i ==> backlinks@[k]@ == NodeView::Group((#[trigger] result@[k])@),
        decreases backlinks.len() - i,
    {
        result.push(backlinks[i].extract_group());
        i += 1;
    }
    result
}

/// Whether `node` is a root of the graph: a single proposition among the
/// graph's roots, which no implication concludes.
pub fn is_root(graph: &PropositionGraph, node: &PropositionNode) -> (r: bool)
    ensures
        r == (node@ matches NodeView::Single(p) && proposition_views(graph.roots@).contains(p)),
{
    if !node.is_single() {
        return false;
    }
    let p = node.extract_single();
    let mut i: usize = 0;
    while i < graph.roots.len()
        invariant
            0 <= i <= graph.roots.len(),
            node@ == NodeView::Single(p@),
            forall|k: int| 0 <= k < i ==> (#[trigger] graph.roots@[k])@ != p@,
        decreases graph.roots.len() - i,
    {
        if proposition_eq(&graph.roots[i], &p) {
            assert(proposition_views(graph.roots@)[i as int] == p@);
            return true;
        }
        i += 1;
    }
    proof {
        if proposition_views(graph.roots@).contains(p@) {
            let k = choose|k: int|
                0 <= k < proposition_views(graph.roots@).len() && proposition_views(graph.roots@)[k]
                    == p@;
            assert(graph.roots@[k]@ == p@);
        }
    }
    false
}

/// Whether `node` is a leaf of the graph: a single proposition that is a
/// term of no premise group.
pub fn is_leaf(graph: &PropositionGraph, node: &PropositionNode) -> (r: bool)
    ensures
        r == (node@ is Single && !exists|g: Seq<PropositionView>|
            #[trigger] is_child(graph.fviews(), NodeView::Group(g), node@)),
{
    if !node.is_single() {
        return false;
    }
    let p = node.extract_single();
    let forward = graph.get_single_forward(&p);
    proof {
        if forward@.len() > 0 {
            let g = conjunction_views(forward@)[0];
            assert(conjunction_views(forward@).contains(g));
            assert(is_child(graph.fviews(), NodeView::Group(g), node@));
        } else {
            assert forall|g: Seq<PropositionView>| !#[trigger] is_child(
                graph.fviews(),
                NodeView::Group(g),
                node@,
            ) by {
                if is_child(graph.fviews(), NodeView::Group(g), node@) {
                    assert(conjunction_views(forward@).contains(g));
                }
            }
        }
    }
    forward.len() == 0
}

/// Whether every premise of a conjunction holds in the assignment.
pub fn score_factor_assignment_conjunction(assignment: &Vec<bool>) -> (r: bool)
    ensures
        r == (forall|k: int| 0 <= k < assignment@.len() ==> #[trigger] assignment@[k]),
{
    let mut i: usize = 0;
    while i < assignment.len()
        invariant
            0 <= i <= assignment.len(),
            forall|k: int| 0 <= k < i ==> #[trigger] assignment@[k],
        decreases assignment.len() - i,
    {
        if !assignment[i] {
            return false;
        }
        i += 1;
    }
    true
}

/// The factors from each premise group to `conclusion`, each with the
/// implication last used for it, and whether each premise holds in the
/// assignment, premise by premise.
pub fn build_factor_context_for_assignment(
    proposition_graph: &PropositionGraph,
    premises: &Vec<Conjunction>,
    premise_assignment: &Vec<bool>,
    conclusion: &Proposition,
) -> (r: (Vec<PropositionFactor>, Vec<bool>))
    requires
        premises@.len() == premise_assignment@.len(),
        forall|k: int|
            0 <= k < premises@.len() ==> has_factor(
                proposition_graph.fviews(),
                #[trigger] premises@[k]@,
                conclusion@,
            ),
    ensures
        r.1@ == premise_assignment@,
        r.0@.len() == premises@.len(),
        forall|k: int|
            0 <= k < premises@.len() ==> (#[trigger] r.0@[k])@ == (FactorView {
                premise: premises@[k]@,
                conclusion: conclusion@,
                inference: last_inference(proposition_graph.fviews(), premises@[k]@, conclusion@),
            }),
{
    let mut factors: Vec<PropositionFactor> = Vec::new();
    let mut probabilities: Vec<bool> = Vec::new();
    let mut i: usize = 0;
    while i < premises.len()
        invariant
            0 <= i <= premises.len(),
            premises@.len() == premise_assignment@.len(),
            forall|k: int|
                0 <= k < premises@.len() ==> has_factor(
                    proposition_graph.fviews(),
                    #[trigger] premises@[k]@,
                    conclusion@,
                ),
            probabilities@ == premise_assignment@.take(i as int),
            factors@.len() == i,
            forall|k: int|
                0 <= k < i ==> (#[trigger] factors@[k])@ == (FactorView {
                    premise: premises@[k]@,
                    conclusion: conclusion@,
                    inference: last_inference(
                        proposition_graph.fviews(),
                        premises@[k]@,
                        conclusion@,
                    ),
                }),
        decreases premises.len() - i,
    {
        probabilities.push(premise_assignment[i]);
        let inference = proposition_graph.get_inference_used(&premises[i], conclusion);
        factors.push(
            PropositionFactor {
                premise: premises[i].duplicate(),
                conclusion: conclusion.duplicate(),
                inference,
            },
        );
        proof {
            assert(premise_assignment@.take(i + 1) =~= premise_assignment@.take(i as int).push(
                premise_assignment@[i as int],
            ));
        }
        i += 1;
    }
    proof {
        assert(premise_assignment@.take(i as int) =~= premise_assignment@);
    }
    (factors, probabilities)
}

/// `s` from the first occurrence of `x` on; empty when `x` does not occur.
pub open spec fn from_first(s: Seq<NodeView>, x: NodeView) -> Seq<NodeView>
    decreases s.len(),
{
    if s.len() == 0 {
        s
    } else if s[0] == x {
        s
    } else {
        from_first(s.drop_first(), x)
    }
}

proof fn lemma_from_first_skip(s: Seq<NodeView>, x: NodeView, i: int)
    requires
        0 <= i <= s.len(),
        forall|j: int| 0 <= j < i ==> s[j] != x,
    ensures
        from_first(s, x) == from_first(s.skip(i), x),
    decreases i,
{
    if i > 0 {
        lemma_from_first_skip(s.drop_first(), x, i - 1);
        assert(s.drop_first().skip(i - 1) =~= s.skip(i));
    } else {
        assert(s.skip(0) =~= s);
    }
}

/// The nodes to revisit when the evidence at `node` changes: the
/// breadth-first order backward, from `node` on.
pub fn fan_out_order(bfs_order: &Vec<PropositionNode>, node: &PropositionNode) -> (r: Vec<
    PropositionNode,
>)
    ensures
        node_views(r@) == from_first(node_views(bfs_order@).reverse(), node@),
{
    let ghost rev = node_views(bfs_order@).reverse();
    let n = bfs_order.len();
    let mut i: usize = 0;
    while i < n
        invariant
            n == bfs_order@.len(),
            0 <= i <= n,
            rev == node_views(bfs_order@).reverse(),
            forall|j: int| 0 <= j < i ==> rev[j] != node@,
        ensures
            0 <= i <= n,
            forall|j: int| 0 <= j < i ==> rev[j] != node@,
            i < n ==> rev[i as int] == node@,
        decreases n - i,
    {
        assert(rev[i as int] == bfs_order@[n - 1 - i]@);
        if node_eq(&bfs_order[n - 1 - i], node) {
            break;
        }
        i += 1;
    }
    proof {
        lemma_from_first_skip(rev, node@, i as int);
    }
    let mut r: Vec<PropositionNode> = Vec::new();
    let start = i;
    while i < n
        invariant
            n == bfs_order@.len(),
            start <= i <= n,
            rev == node_views(bfs_order@).reverse(),
            node_views(r@) == rev.subrange(start as int, i as int),
        decreases n - i,
    {
        assert(rev[i as int] == bfs_order@[n - 1 - i]@);
        r.push(bfs_order[n - 1 - i].duplicate());
        proof {
            assert(rev.subrange(start as int, i + 1) =~= rev.subrange(start as int, i as int).push(
                rev[i as int],
            ));
            assert(node_views(r@) =~= node_views(r@.drop_last()).push(r@.last()@));
        }
        i += 1;
    }
    proof {
        assert(rev.subrange(start as int, n as int) =~= rev.skip(start as int));
        if start < n {
            assert(rev.skip(start as int)[0] == node@);
        } else {
            assert(rev.skip(start as int) =~= Seq::<NodeView>::empty());
        }
    }
    r
}

} // verus!
