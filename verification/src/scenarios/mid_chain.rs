//! A middle-length chain: `alpha0` to `alpha4`, each level implying the
//! next; the top level is what is tested.

use vstd::prelude::*;
use crate::graph::{entity_commands, implications_commands, InferenceGraph};
use crate::objects::{Domain, Entity, Implication};
use crate::proposition_db::RedisBeliefTable;
use crate::scenarios::{
    chain_entries, chain_levels, chain_levels_commands, chain_links, lemma_chain_levels_beliefs,
    lemma_chain_levels_lists, lemma_plain_lists, level_function,
    member_count, member_name, member_name_string, push_chain_links, unary_fact, weighted_cointoss,
    ScenarioMaker,
};
use crate::proposition_db::{boolean_text, probabilities_key, stored_belief};
use crate::objects::proposition_text;
use crate::search::implication_views;
use crate::store::{
    append_commands, command_views, lemma_list_read_concat, lemma_map_read_suffix, list_read,
    qualified_key, CommandView, PayloadView, StoreCommand,
};
use crate::train::{test_queue, training_queue, TrainingPlan};

verus! {

/// The middle-length chain scenario.
pub struct Scenario {}

/// The number of levels of the chain.
pub const LINK_HEIGHT: u32 = 5;

/// What the `i`-th man writes for his draw of `alpha`: every level observed
/// as drawn, the top level tested for the test man.
pub open spec fn mid_chain_member(ns: Seq<char>, i: nat, alpha: bool) -> Seq<CommandView> {
    let is_test = i == 0;
    let name = member_name(is_test, Domain::Jack, i);
    entity_commands(ns, Domain::Jack, name) + chain_levels(
        ns,
        "alpha"@,
        name,
        alpha,
        is_test,
        LINK_HEIGHT - 1,
        LINK_HEIGHT as nat,
    )
}

/// Whatever a man draws for `alpha`, once his commands have run the store
/// holds that draw as the observation of every level of his chain.
pub proof fn lemma_mid_chain_levels(ns: Seq<char>, i: nat, alpha: bool, l: nat)
    requires
        l < LINK_HEIGHT,
    ensures
        stored_belief(
            ns,
            mid_chain_member(ns, i, alpha),
            unary_fact(level_function("alpha"@, l), Domain::Jack, member_name(i == 0, Domain::Jack, i)),
        ) == Some(PayloadView::Text(boolean_text(alpha))),
{
    let name = member_name(i == 0, Domain::Jack, i);
    let chain = chain_levels(ns, "alpha"@, name, alpha, i == 0, LINK_HEIGHT - 1, LINK_HEIGHT as nat);
    lemma_chain_levels_beliefs(ns, "alpha"@, name, alpha, i == 0, LINK_HEIGHT - 1, LINK_HEIGHT as nat);
    let p = unary_fact(level_function("alpha"@, l), Domain::Jack, name);
    assert(stored_belief(ns, chain, p) == Some(PayloadView::Text(boolean_text(alpha))));
    lemma_map_read_suffix(entity_commands(ns, Domain::Jack, name), chain, qualified_key(ns, probabilities_key()), proposition_text(p));
}

/// A training man puts every level of his chain, in order, on the
/// training list and nothing on the test list; the test man puts only the
/// top level on the test list, and nothing on the training list.
pub proof fn lemma_mid_chain_queues(ns: Seq<char>, i: nat, alpha: bool)
    ensures
        list_read(mid_chain_member(ns, i, alpha), qualified_key(ns, training_queue())) == (if i == 0 {
            Seq::<PayloadView>::empty()
        } else {
            chain_entries("alpha"@, member_name(false, Domain::Jack, i), LINK_HEIGHT as nat)
        }),
        list_read(mid_chain_member(ns, i, alpha), qualified_key(ns, test_queue())) == (if i == 0 {
            seq![PayloadView::Proposition(unary_fact(level_function("alpha"@, (LINK_HEIGHT - 1) as nat), Domain::Jack, member_name(true, Domain::Jack, 0)))]
        } else {
            Seq::<PayloadView>::empty()
        }),
{
    let name = member_name(i == 0, Domain::Jack, i);
    let entity = entity_commands(ns, Domain::Jack, name);
    let chain = chain_levels(ns, "alpha"@, name, alpha, i == 0, LINK_HEIGHT - 1, LINK_HEIGHT as nat);
    lemma_chain_levels_lists(ns, "alpha"@, name, alpha, i == 0, LINK_HEIGHT - 1, LINK_HEIGHT as nat);
    let tr = qualified_key(ns, training_queue());
    let te = qualified_key(ns, test_queue());
    lemma_plain_lists(ns, true, Seq::empty(), true, Domain::Jack, name, tr);
    lemma_plain_lists(ns, true, Seq::empty(), true, Domain::Jack, name, te);
    lemma_list_read_concat(entity, chain, tr);
    lemma_list_read_concat(entity, chain, te);
    assert(Seq::<PayloadView>::empty() + list_read(chain, tr) =~= list_read(chain, tr));
    assert(Seq::<PayloadView>::empty() + list_read(chain, te) =~= list_read(chain, te));
}

/// What the men write, for their draws.
pub open spec fn mid_chain_members(ns: Seq<char>, draws: Seq<bool>) -> Seq<CommandView>
    decreases draws.len(),
{
    if draws.len() == 0 {
        Seq::empty()
    } else {
        mid_chain_members(ns, draws.drop_last()) + mid_chain_member(
            ns,
            (draws.len() - 1) as nat,
            draws.last(),
        )
    }
}

/// What the scenario writes, for the draws of its men.
pub open spec fn mid_chain_commands(ns: Seq<char>, draws: Seq<bool>) -> Seq<CommandView> {
    mid_chain_members(ns, draws) + implications_commands(
        ns,
        chain_links("alpha"@, (LINK_HEIGHT - 1) as nat),
    )
}

fn mid_chain_member_commands(
    graph: &InferenceGraph,
    table: &RedisBeliefTable,
    plan: &TrainingPlan,
    i: u32,
    alpha: bool,
) -> (r: Vec<StoreCommand>)
    requires
        table.namespace@ == graph.namespace@,
        plan.namespace@ == graph.namespace@,
    ensures
        command_views(r@) == mid_chain_member(graph.namespace@, i as nat, alpha),
{
    let is_test = i == 0;
    let jack = Entity { domain: Domain::Jack, name: member_name_string(is_test, Domain::Jack, i) };
    let mut out = graph.store_entity(&jack);
    let top: i64 = (LINK_HEIGHT - 1) as i64;
    append_commands(
        &mut out,
        chain_levels_commands(graph, table, plan, "alpha", jack.name.as_str(), alpha, is_test, top, LINK_HEIGHT),
    );
    out
}

impl Scenario {
    /// The commands of the scenario in `namespace` for the given draws, one
    /// per man; the man at index 0 is the test man.
    pub fn setup_with(&self, namespace: &str, draws: &Vec<bool>) -> (r: Vec<StoreCommand>)
        requires
            draws@.len() <= u32::MAX,
        ensures
            command_views(r@) == mid_chain_commands(namespace@, draws@),
    {
        let graph = InferenceGraph::new_literal(String::from_str(namespace));
        let table = RedisBeliefTable { namespace: String::from_str(namespace) };
        let plan = TrainingPlan::new(String::from_str(namespace));
        let mut out: Vec<StoreCommand> = Vec::new();
        let mut i: usize = 0;
        while i < draws.len()
            invariant
                0 <= i <= draws.len(),
                draws@.len() <= u32::MAX,
                graph.namespace@ == namespace@,
                table.namespace@ == namespace@,
                plan.namespace@ == namespace@,
                command_views(out@) == mid_chain_members(namespace@, draws@.take(i as int)),
            decreases draws.len() - i,
        {
            let block = mid_chain_member_commands(&graph, &table, &plan, i as u32, draws[i]);
            append_commands(&mut out, block);
            proof {
                assert(draws@.take(i + 1).drop_last() =~= draws@.take(i as int));
            }
            i += 1;
        }
        proof {
            assert(draws@.take(i as int) =~= draws@);
        }
        let mut implications: Vec<Implication> = Vec::new();
        push_chain_links(&mut implications, "alpha", LINK_HEIGHT - 1);
        proof {
            assert(implication_views(implications@) =~= chain_links("alpha"@, (LINK_HEIGHT - 1) as nat));
        }
        append_commands(&mut out, graph.store_predicate_implications(&implications));
        out
    }
}

impl ScenarioMaker for Scenario {
    /// Draws, for each man, `alpha` (three in ten), and writes the scenario
    /// for the draws.
    fn setup_scenario(&self, namespace: &str, entities_per_domain: i32) -> (r: Vec<StoreCommand>)
        ensures
            exists|draws: Seq<bool>|
                draws.len() == member_count(entities_per_domain) && command_views(r@)
                    == #[trigger] mid_chain_commands(namespace@, draws),
    {
        let mut draws: Vec<bool> = Vec::new();
        let mut i: i32 = 0;
        while i < entities_per_domain
            invariant
                0 <= i,
                i <= entities_per_domain || i == 0,
                draws@.len() == i,
            decreases entities_per_domain - i,
        {
            draws.push(weighted_cointoss(3, 10));
            i += 1;
        }
        let r = self.setup_with(namespace, &draws);
        assert(draws@.len() == member_count(entities_per_domain));
        r
    }
}

} // verus!
