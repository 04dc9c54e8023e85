//! The eligibility triangle: a charming man is rich, and a rich and charming
//! man is a baller. Only charm is observed.

use vstd::prelude::*;
use crate::creators::conjunction;
use crate::graph::{entity_commands, implications_commands, InferenceGraph};
use crate::objects::{
    proposition_views, role_map_views, Domain, Entity, Implication, ImplicationView, Proposition,
    RoleMap,
};
use crate::proposition_db::{boolean_text, stored_belief, RedisBeliefTable};
use crate::scenarios::{
    lemma_observed_fact_lists, lemma_observed_fact_reads, lemma_plain_lists, member_count, member_name, member_name_string, observe_fact,
    observed_fact, role_map_one,
    unary_fact, unary_pattern, unary_predicate, unary_proposition, weighted_cointoss,
    ScenarioMaker,
};
use crate::search::implication_views;
use crate::store::{
    append_commands, command_views, lemma_list_read_concat, list_read, qualified_key, CommandView,
    PayloadView, StoreCommand,
};
use crate::train::{test_queue, training_queue, TrainingPlan};

verus! {

/// The eligibility triangle scenario.
pub struct EligibilityTriangle {}

/// What the `i`-th couple writes when he is charming or not; every tenth
/// couple, from the tenth on, is a test couple.
pub open spec fn triangle_member(ns: Seq<char>, i: nat, charming: bool) -> Seq<CommandView> {
    let is_test = i % 10 == 9;
    let jack = member_name(is_test, Domain::Jack, i);
    let jill = member_name(is_test, Domain::Jill, i);
    entity_commands(ns, Domain::Jack, jack) + entity_commands(ns, Domain::Jill, jill)
        + observed_fact(ns, unary_fact("charming"@, Domain::Jack, jack), charming, !is_test)
}

/// Whatever a couple draws, once its commands have run the store holds
/// the draw as whether he is charming.
pub proof fn lemma_triangle_charm(ns: Seq<char>, i: nat, charming: bool)
    ensures
        stored_belief(
            ns,
            triangle_member(ns, i, charming),
            unary_fact("charming"@, Domain::Jack, member_name(i % 10 == 9, Domain::Jack, i)),
        ) == Some(PayloadView::Text(boolean_text(charming))),
{
    let is_test = i % 10 == 9;
    let jack = member_name(is_test, Domain::Jack, i);
    let jill = member_name(is_test, Domain::Jill, i);
    lemma_observed_fact_reads(
        entity_commands(ns, Domain::Jack, jack) + entity_commands(ns, Domain::Jill, jill),
        ns,
        unary_fact("charming"@, Domain::Jack, jack),
        charming,
        !is_test,
    );
}

/// A training couple puts whether he is charming on the training list; a
/// test couple puts nothing on either list.
pub proof fn lemma_triangle_queues(ns: Seq<char>, i: nat, charming: bool)
    ensures
        list_read(triangle_member(ns, i, charming), qualified_key(ns, training_queue())) == (if i % 10 == 9 {
            Seq::<PayloadView>::empty()
        } else {
            seq![PayloadView::Proposition(unary_fact("charming"@, Domain::Jack, member_name(false, Domain::Jack, i)))]
        }),
        list_read(triangle_member(ns, i, charming), qualified_key(ns, test_queue())) == Seq::<PayloadView>::empty(),
{
    let is_test = i % 10 == 9;
    let jack = member_name(is_test, Domain::Jack, i);
    let jill = member_name(is_test, Domain::Jill, i);
    let e1 = entity_commands(ns, Domain::Jack, jack);
    let e2 = entity_commands(ns, Domain::Jill, jill);
    let o = observed_fact(ns, unary_fact("charming"@, Domain::Jack, jack), charming, !is_test);
    crate::train::lemma_queues_apart(ns);
    assert forall|key: Seq<char>| key == qualified_key(ns, training_queue()) || key == qualified_key(ns, test_queue()) implies list_read(
        triangle_member(ns, i, charming),
        key,
    ) == list_read(o, key) by {
        lemma_plain_lists(ns, true, Seq::empty(), true, Domain::Jack, jack, key);
        lemma_plain_lists(ns, true, Seq::empty(), true, Domain::Jill, jill, key);
        lemma_observed_fact_lists(ns, unary_fact("charming"@, Domain::Jack, jack), charming, !is_test, key);
        lemma_list_read_concat(e1, e2, key);
        lemma_list_read_concat(e1 + e2, o, key);
        assert(list_read(e1 + e2 + o, key) =~= list_read(o, key));
    }
    lemma_observed_fact_lists(ns, unary_fact("charming"@, Domain::Jack, jack), charming, !is_test, qualified_key(ns, training_queue()));
    lemma_observed_fact_lists(ns, unary_fact("charming"@, Domain::Jack, jack), charming, !is_test, qualified_key(ns, test_queue()));
}

/// What the couples write, for their draws.
pub open spec fn triangle_members(ns: Seq<char>, draws: Seq<bool>) -> Seq<CommandView>
    decreases draws.len(),
{
    if draws.len() == 0 {
        Seq::empty()
    } else {
        triangle_members(ns, draws.drop_last()) + triangle_member(
            ns,
            (draws.len() - 1) as nat,
            draws.last(),
        )
    }
}

/// Charm implies riches; riches and charm imply being a baller.
pub open spec fn triangle_implications() -> Seq<ImplicationView> {
    seq![
        ImplicationView {
            premise: seq![unary_pattern("charming"@, Domain::Jack)],
            conclusion: unary_pattern("rich"@, Domain::Jack),
            role_maps: seq![seq![("sub"@, "sub"@)]],
        },
        ImplicationView {
            premise: seq![
                unary_pattern("rich"@, Domain::Jack),
                unary_pattern("charming"@, Domain::Jack),
            ],
            conclusion: unary_pattern("baller"@, Domain::Jack),
            role_maps: seq![seq![("sub"@, "sub"@)], seq![("sub"@, "sub"@)]],
        },
    ]
}

/// What the scenario writes, for the draws of its couples.
pub open spec fn triangle_commands(ns: Seq<char>, draws: Seq<bool>) -> Seq<CommandView> {
    triangle_members(ns, draws) + implications_commands(ns, triangle_implications())
}

fn triangle_member_commands(
    graph: &InferenceGraph,
    table: &RedisBeliefTable,
    plan: &TrainingPlan,
    i: u32,
    charming: bool,
) -> (r: Vec<StoreCommand>)
    requires
        table.namespace@ == graph.namespace@,
        plan.namespace@ == graph.namespace@,
    ensures
        command_views(r@) == triangle_member(graph.namespace@, i as nat, charming),
{
    let is_test = i % 10 == 9;
    let jack = Entity { domain: Domain::Jack, name: member_name_string(is_test, Domain::Jack, i) };
    let jill = Entity { domain: Domain::Jill, name: member_name_string(is_test, Domain::Jill, i) };
    let mut out = graph.store_entity(&jack);
    append_commands(&mut out, graph.store_entity(&jill));
    let jack_charming = unary_proposition("charming", Domain::Jack, jack.name.as_str());
    append_commands(&mut out, observe_fact(graph, table, plan, &jack_charming, charming, !is_test));
    out
}

fn triangle_implication_list() -> (r: Vec<Implication>)
    ensures
        implication_views(r@) == triangle_implications(),
{
    let mut p1: Vec<Proposition> = Vec::new();
    p1.push(unary_predicate("charming", Domain::Jack));
    let mut m1: Vec<RoleMap> = Vec::new();
    m1.push(role_map_one("sub", "sub"));
    let mut p2: Vec<Proposition> = Vec::new();
    p2.push(unary_predicate("rich", Domain::Jack));
    p2.push(unary_predicate("charming", Domain::Jack));
    let mut m2: Vec<RoleMap> = Vec::new();
    m2.push(role_map_one("sub", "sub"));
    m2.push(role_map_one("sub", "sub"));
    let ghost v = triangle_implications();
    proof {
        assert(proposition_views(p1@) =~= v[0].premise);
        assert(role_map_views(m1@) =~= v[0].role_maps);
        assert(proposition_views(p2@) =~= v[1].premise);
        assert(role_map_views(m2@) =~= v[1].role_maps);
    }
    let mut r: Vec<Implication> = Vec::new();
    r.push(
        crate::creators::implication(conjunction(p1), unary_predicate("rich", Domain::Jack), m1),
    );
    r.push(
        crate::creators::implication(conjunction(p2), unary_predicate("baller", Domain::Jack), m2),
    );
    proof {
        assert(implication_views(r@) =~= v);
    }
    r
}

impl EligibilityTriangle {
    /// The commands of the scenario in `namespace` for the given draws of
    /// charm, one per couple.
    pub fn setup_with(&self, namespace: &str, draws: &Vec<bool>) -> (r: Vec<StoreCommand>)
        requires
            draws@.len() <= u32::MAX,
        ensures
            command_views(r@) == triangle_commands(namespace@, draws@),
    {
        let graph = InferenceGraph::new_literal(String::from_str(namespace));
        let table = RedisBeliefTable { namespace: String::from_str(namespace) };
        let plan = TrainingPlan::new(String::from_str(namespace));
        let mut out: Vec<StoreCommand> = Vec::new();
        let mut i: usize = 0;
        while i < draws.len()
            invariant
                0 <= i <= draws.len(),
                draws@.len() <= u32::MAX,
                graph.namespace@ == namespace@,
                table.namespace@ == namespace@,
                plan.namespace@ == namespace@,
                command_views(out@) == triangle_members(namespace@, draws@.take(i as int)),
            decreases draws.len() - i,
        {
            let block = triangle_member_commands(&graph, &table, &plan, i as u32, draws[i]);
            append_commands(&mut out, block);
            proof {
                assert(draws@.take(i + 1).drop_last() =~= draws@.take(i as int));
            }
            i += 1;
        }
        proof {
            assert(draws@.take(i as int) =~= draws@);
        }
        let implications = triangle_implication_list();
        append_commands(&mut out, graph.store_predicate_implications(&implications));
        out
    }
}

impl ScenarioMaker for EligibilityTriangle {
    /// Draws, for each couple, whether he is charming (three in ten), and
    /// writes the scenario for the draws.
    fn setup_scenario(&self, namespace: &str, entities_per_domain: i32) -> (r: Vec<StoreCommand>)
        ensures
            exists|draws: Seq<bool>|
                draws.len() == member_count(entities_per_domain) && command_views(r@)
                    == #[trigger] triangle_commands(namespace@, draws),
    {
        let mut draws: Vec<bool> = Vec::new();
        let mut i: i32 = 0;
        while i < entities_per_domain
            invariant
                0 <= i,
                i <= entities_per_domain || i == 0,
                draws@.len() == i,
            decreases entities_per_domain - i,
        {
            draws.push(weighted_cointoss(3, 10));
            i += 1;
        }
        let r = self.setup_with(namespace, &draws);
        assert(draws@.len() == member_count(entities_per_domain));
        r
    }
}

} // verus!
