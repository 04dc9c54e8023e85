//! A long conjunction: two chains of ten levels, `alpha0` to `alpha9` and
//! `beta0` to `beta9`, each level implying the next, and `gamma` implied by
//! the tops of both chains together.

use vstd::prelude::*;
use crate::creators::conjunction;
use crate::graph::{entity_commands, implications_commands, InferenceGraph};
use crate::objects::{proposition_views, role_map_views, Domain, Entity, Implication, ImplicationView, Proposition, RoleMap};
use crate::proposition_db::{belief_command, boolean_text, probabilities_key, stored_belief, RedisBeliefTable};
use crate::scenarios::{
    chain_levels, chain_levels_commands, chain_links, level_function, level_function_string,
    member_count, member_name, member_name_string, push_chain_links, role_map_one, unary_fact,
    unary_pattern, unary_predicate, unary_proposition, weighted_cointoss, ScenarioMaker,
};
use crate::search::implication_views;
use crate::store::{
    append_commands, command_views, lemma_map_read_skip, lemma_map_read_suffix, lemma_map_read_write,
    lemma_list_read_concat, lemma_list_read_none, list_read, push_command, qualified_key, writes_entry,
    CommandView, PayloadView, StoreCommand,
};
use crate::objects::proposition_text;
use crate::scenarios::{
    chain_entries, lemma_chain_levels_beliefs, lemma_chain_levels_lists, lemma_first_letters_differ,
    lemma_plain_lists, lemma_queue_entry_lists,
};
use crate::train::{push_optional, test_commands, test_queue, training_commands, training_queue, TrainingPlan};

verus! {

/// The long conjunction scenario.
pub struct Scenario {}

/// The number of levels of each chain.
pub const LINK_HEIGHT: u32 = 10;

/// What the `i`-th man writes for his draws of `alpha` and `beta`: every
/// level of both chains observed as drawn, and `gamma` observed as both.
pub open spec fn long_and_member(ns: Seq<char>, i: nat, d: (bool, bool)) -> Seq<CommandView> {
    let is_test = i == 0;
    let name = member_name(is_test, Domain::Jack, i);
    let gamma = unary_fact("gamma"@, Domain::Jack, name);
    (entity_commands(ns, Domain::Jack, name) + chain_levels(
        ns,
        "alpha"@,
        name,
        d.0,
        is_test,
        -1,
        LINK_HEIGHT as nat,
    ) + chain_levels(ns, "beta"@, name, d.1, is_test, -1, LINK_HEIGHT as nat)).push(
        belief_command(ns, gamma, d.0 && d.1),
    ) + training_commands(ns, !is_test, gamma) + test_commands(ns, is_test, gamma)
}

/// Whatever a man draws, once his commands have run the store says that
/// `gamma` holds of him exactly when both `alpha` and `beta` do: never when
/// either fails.
pub proof fn lemma_long_and_gamma(ns: Seq<char>, i: nat, d: (bool, bool))
    ensures
        stored_belief(
            ns,
            long_and_member(ns, i, d),
            unary_fact("gamma"@, Domain::Jack, member_name(i == 0, Domain::Jack, i)),
        ) == Some(PayloadView::Text(boolean_text(d.0 && d.1))),
{
    let is_test = i == 0;
    let name = member_name(is_test, Domain::Jack, i);
    let gamma = unary_fact("gamma"@, Domain::Jack, name);
    let key = qualified_key(ns, probabilities_key());
    let head = entity_commands(ns, Domain::Jack, name) + chain_levels(ns, "alpha"@, name, d.0, is_test, -1, LINK_HEIGHT as nat)
        + chain_levels(ns, "beta"@, name, d.1, is_test, -1, LINK_HEIGHT as nat);
    let tail = training_commands(ns, !is_test, gamma) + test_commands(ns, is_test, gamma);
    let written = head.push(belief_command(ns, gamma, d.0 && d.1));
    assert(long_and_member(ns, i, d) =~= written + tail);
    lemma_map_read_write(head, key, proposition_text(gamma), PayloadView::Text(boolean_text(d.0 && d.1)));
    lemma_map_read_skip(written, tail, key, proposition_text(gamma));
}

/// Whatever a man draws for `alpha` and `beta`, once his commands have run
/// the store holds each draw as the observation of every level of its
/// chain.
pub proof fn lemma_long_and_chains(ns: Seq<char>, i: nat, d: (bool, bool), l: nat)
    requires
        l < LINK_HEIGHT,
    ensures
        stored_belief(
            ns,
            long_and_member(ns, i, d),
            unary_fact(level_function("alpha"@, l), Domain::Jack, member_name(i == 0, Domain::Jack, i)),
        ) == Some(PayloadView::Text(boolean_text(d.0))),
        stored_belief(
            ns,
            long_and_member(ns, i, d),
            unary_fact(level_function("beta"@, l), Domain::Jack, member_name(i == 0, Domain::Jack, i)),
        ) == Some(PayloadView::Text(boolean_text(d.1))),
{
    let is_test = i == 0;
    let name = member_name(is_test, Domain::Jack, i);
    let key = qualified_key(ns, probabilities_key());
    let gamma = unary_fact("gamma"@, Domain::Jack, name);
    let entity = entity_commands(ns, Domain::Jack, name);
    let alpha = chain_levels(ns, "alpha"@, name, d.0, is_test, -1, LINK_HEIGHT as nat);
    let beta = chain_levels(ns, "beta"@, name, d.1, is_test, -1, LINK_HEIGHT as nat);
    let tail = training_commands(ns, !is_test, gamma) + test_commands(ns, is_test, gamma);
    let pa = unary_fact(level_function("alpha"@, l), Domain::Jack, name);
    let pb = unary_fact(level_function("beta"@, l), Domain::Jack, name);
    lemma_chain_levels_beliefs(ns, "alpha"@, name, d.0, is_test, -1, LINK_HEIGHT as nat);
    lemma_chain_levels_beliefs(ns, "beta"@, name, d.1, is_test, -1, LINK_HEIGHT as nat);
    reveal_strlit("alpha");
    reveal_strlit("beta");
    reveal_strlit("gamma");
    lemma_map_read_suffix(entity, alpha, key, proposition_text(pa));
    let rest_a = beta.push(belief_command(ns, gamma, d.0 && d.1)) + tail;
    assert(long_and_member(ns, i, d) =~= (entity + alpha) + rest_a);
    lemma_first_letters_differ(level_function("alpha"@, l), "gamma"@, pa, gamma);
    assert forall|k: int| 0 <= k < rest_a.len() implies !writes_entry(#[trigger] rest_a[k], key, proposition_text(pa)) by {
        if k < beta.len() {
            assert(rest_a[k] == beta[k]);
            if writes_entry(beta[k], key, proposition_text(pa)) {
                let m = choose|m: nat| m < LINK_HEIGHT as nat && proposition_text(pa) == proposition_text(
                    #[trigger] unary_fact(level_function("beta"@, m), Domain::Jack, name),
                );
                lemma_first_letters_differ(
                    level_function("alpha"@, l),
                    level_function("beta"@, m),
                    pa,
                    unary_fact(level_function("beta"@, m), Domain::Jack, name),
                );
            }
        }
    }
    lemma_map_read_skip(entity + alpha, rest_a, key, proposition_text(pa));
    lemma_map_read_suffix(entity + alpha, beta, key, proposition_text(pb));
    let rest_b = seq![belief_command(ns, gamma, d.0 && d.1)] + tail;
    assert(long_and_member(ns, i, d) =~= (entity + alpha + beta) + rest_b);
    lemma_first_letters_differ(level_function("beta"@, l), "gamma"@, pb, gamma);
    assert forall|k: int| 0 <= k < rest_b.len() implies !writes_entry(#[trigger] rest_b[k], key, proposition_text(pb)) by {}
    lemma_map_read_skip(entity + alpha + beta, rest_b, key, proposition_text(pb));
}

/// A training man puts on the training list every level of `alpha`, then
/// every level of `beta`, then `gamma`, and nothing on the test list; the
/// test man puts only `gamma` on the test list, and nothing on the training
/// list.
pub proof fn lemma_long_and_queues(ns: Seq<char>, i: nat, d: (bool, bool))
    ensures
        list_read(long_and_member(ns, i, d), qualified_key(ns, training_queue())) == (if i == 0 {
            Seq::<PayloadView>::empty()
        } else {
            chain_entries("alpha"@, member_name(false, Domain::Jack, i), LINK_HEIGHT as nat) + chain_entries(
                "beta"@,
                member_name(false, Domain::Jack, i),
                LINK_HEIGHT as nat,
            ) + seq![PayloadView::Proposition(unary_fact("gamma"@, Domain::Jack, member_name(false, Domain::Jack, i)))]
        }),
        list_read(long_and_member(ns, i, d), qualified_key(ns, test_queue())) == (if i == 0 {
            seq![PayloadView::Proposition(unary_fact("gamma"@, Domain::Jack, member_name(true, Domain::Jack, 0)))]
        } else {
            Seq::<PayloadView>::empty()
        }),
{
    let is_test = i == 0;
    let name = member_name(is_test, Domain::Jack, i);
    let gamma = unary_fact("gamma"@, Domain::Jack, name);
    let entity = entity_commands(ns, Domain::Jack, name);
    let alpha = chain_levels(ns, "alpha"@, name, d.0, is_test, -1, LINK_HEIGHT as nat);
    let beta = chain_levels(ns, "beta"@, name, d.1, is_test, -1, LINK_HEIGHT as nat);
    let g = seq![belief_command(ns, gamma, d.0 && d.1)];
    let q1 = training_commands(ns, !is_test, gamma);
    let q2 = test_commands(ns, is_test, gamma);
    assert(long_and_member(ns, i, d) =~= entity + alpha + beta + g + q1 + q2);
    crate::train::lemma_queues_apart(ns);
    lemma_chain_levels_lists(ns, "alpha"@, name, d.0, is_test, -1, LINK_HEIGHT as nat);
    lemma_chain_levels_lists(ns, "beta"@, name, d.1, is_test, -1, LINK_HEIGHT as nat);
    let tr = qualified_key(ns, training_queue());
    let te = qualified_key(ns, test_queue());
    lemma_plain_lists(ns, true, gamma, d.0 && d.1, Domain::Jack, name, tr);
    lemma_plain_lists(ns, true, gamma, d.0 && d.1, Domain::Jack, name, te);
    lemma_queue_entry_lists(ns, !is_test, gamma, tr);
    lemma_queue_entry_lists(ns, is_test, gamma, tr);
    lemma_queue_entry_lists(ns, !is_test, gamma, te);
    lemma_queue_entry_lists(ns, is_test, gamma, te);
    lemma_list_read_none(g, tr);
    lemma_list_read_none(g, te);
    lemma_list_read_concat(entity, alpha, tr);
    lemma_list_read_concat(entity + alpha, beta, tr);
    lemma_list_read_concat(entity + alpha + beta, g, tr);
    lemma_list_read_concat(entity + alpha + beta + g, q1, tr);
    lemma_list_read_concat(entity + alpha + beta + g + q1, q2, tr);
    lemma_list_read_concat(entity, alpha, te);
    lemma_list_read_concat(entity + alpha, beta, te);
    lemma_list_read_concat(entity + alpha + beta, g, te);
    lemma_list_read_concat(entity + alpha + beta + g, q1, te);
    lemma_list_read_concat(entity + alpha + beta + g + q1, q2, te);
    let z = Seq::<PayloadView>::empty();
    assert(list_read(long_and_member(ns, i, d), tr) =~= (if is_test {
        z
    } else {
        chain_entries("alpha"@, name, LINK_HEIGHT as nat) + chain_entries("beta"@, name, LINK_HEIGHT as nat) + seq![
            PayloadView::Proposition(gamma),
        ]
    }));
    assert(list_read(long_and_member(ns, i, d), te) =~= (if is_test {
        seq![PayloadView::Proposition(gamma)]
    } else {
        z
    }));
}

/// What the men write, for their draws.
pub open spec fn long_and_members(ns: Seq<char>, draws: Seq<(bool, bool)>) -> Seq<CommandView>
    decreases draws.len(),
{
    if draws.len() == 0 {
        Seq::empty()
    } else {
        long_and_members(ns, draws.drop_last()) + long_and_member(
            ns,
            (draws.len() - 1) as nat,
            draws.last(),
        )
    }
}

/// The tops of both chains imply `gamma`.
pub open spec fn long_and_top() -> ImplicationView {
    ImplicationView {
        premise: seq![
            unary_pattern(level_function("alpha"@, (LINK_HEIGHT - 1) as nat), Domain::Jack),
            unary_pattern(level_function("beta"@, (LINK_HEIGHT - 1) as nat), Domain::Jack),
        ],
        conclusion: unary_pattern("gamma"@, Domain::Jack),
        role_maps: seq![seq![("sub"@, "sub"@)], seq![("sub"@, "sub"@)]],
    }
}

/// The links of both chains, then the conjunction.
pub open spec fn long_and_implications() -> Seq<ImplicationView> {
    (chain_links("alpha"@, (LINK_HEIGHT - 1) as nat) + chain_links(
        "beta"@,
        (LINK_HEIGHT - 1) as nat,
    )).push(long_and_top())
}

/// What the scenario writes, for the draws of its men.
pub open spec fn long_and_commands(ns: Seq<char>, draws: Seq<(bool, bool)>) -> Seq<CommandView> {
    long_and_members(ns, draws) + implications_commands(ns, long_and_implications())
}

fn long_and_member_commands(
    graph: &InferenceGraph,
    table: &RedisBeliefTable,
    plan: &TrainingPlan,
    i: u32,
    d: (bool, bool),
) -> (r: Vec<StoreCommand>)
    requires
        table.namespace@ == graph.namespace@,
        plan.namespace@ == graph.namespace@,
    ensures
        command_views(r@) == long_and_member(graph.namespace@, i as nat, d),
{
    let is_test = i == 0;
    let (alpha, beta) = d;
    let jack = Entity { domain: Domain::Jack, name: member_name_string(is_test, Domain::Jack, i) };
    let mut out = graph.store_entity(&jack);
    append_commands(
        &mut out,
        chain_levels_commands(graph, table, plan, "alpha", jack.name.as_str(), alpha, is_test, -1, LINK_HEIGHT),
    );
    append_commands(
        &mut out,
        chain_levels_commands(graph, table, plan, "beta", jack.name.as_str(), beta, is_test, -1, LINK_HEIGHT),
    );
    let gamma = unary_proposition("gamma", Domain::Jack, jack.name.as_str());
    push_command(&mut out, table.store_proposition_boolean(&gamma, alpha && beta));
    push_optional(&mut out, plan.maybe_add_to_training(!is_test, &gamma));
    push_optional(&mut out, plan.maybe_add_to_test(is_test, &gamma));
    out
}

fn long_and_implication_list() -> (r: Vec<Implication>)
    ensures
        implication_views(r@) == long_and_implications(),
{
    let mut r: Vec<Implication> = Vec::new();
    push_chain_links(&mut r, "alpha", LINK_HEIGHT - 1);
    push_chain_links(&mut r, "beta", LINK_HEIGHT - 1);
    let mut premise: Vec<Proposition> = Vec::new();
    let a = level_function_string("alpha", LINK_HEIGHT - 1);
    let b = level_function_string("beta", LINK_HEIGHT - 1);
    premise.push(unary_predicate(a.as_str(), Domain::Jack));
    premise.push(unary_predicate(b.as_str(), Domain::Jack));
    let mut maps: Vec<RoleMap> = Vec::new();
    maps.push(role_map_one("sub", "sub"));
    maps.push(role_map_one("sub", "sub"));
    proof {
        assert(proposition_views(premise@) =~= long_and_top().premise);
        assert(role_map_views(maps@) =~= long_and_top().role_maps);
    }
    let ghost before = r@;
    r.push(
        crate::creators::implication(conjunction(premise), unary_predicate("gamma", Domain::Jack), maps),
    );
    proof {
        assert(implication_views(r@) =~= implication_views(before).push(long_and_top()));
    }
    r
}

impl Scenario {
    /// The commands of the scenario in `namespace` for the given draws of
    /// `alpha` and `beta`, one pair per man; the man at index 0 is the test man.
    pub fn setup_with(&self, namespace: &str, draws: &Vec<(bool, bool)>) -> (r: Vec<StoreCommand>)
        requires
            draws@.len() <= u32::MAX,
        ensures
            command_views(r@) == long_and_commands(namespace@, draws@),
    {
        let graph = InferenceGraph::new_literal(String::from_str(namespace));
        let table = RedisBeliefTable { namespace: String::from_str(namespace) };
        let plan = TrainingPlan::new(String::from_str(namespace));
        let mut out: Vec<StoreCommand> = Vec::new();
        let mut i: usize = 0;
        while i < draws.len()
            invariant
                0 <= i <= draws.len(),
                draws@.len() <= u32::MAX,
                graph.namespace@ == namespace@,
                table.namespace@ == namespace@,
                plan.namespace@ == namespace@,
                command_views(out@) == long_and_members(namespace@, draws@.take(i as int)),
            decreases draws.len() - i,
        {
            let block = long_and_member_commands(&graph, &table, &plan, i as u32, draws[i]);
            append_commands(&mut out, block);
            proof {
                assert(draws@.take(i + 1).drop_last() =~= draws@.take(i as int));
            }
            i += 1;
        }
        proof {
            assert(draws@.take(i as int) =~= draws@);
        }
        let implications = long_and_implication_list();
        append_commands(&mut out, graph.store_predicate_implications(&implications));
        out
    }
}

impl ScenarioMaker for Scenario {
    /// Draws, for each man, `alpha` and `beta` (three in ten each), and
    /// writes the scenario for the draws.
    fn setup_scenario(&self, namespace: &str, entities_per_domain: i32) -> (r: Vec<StoreCommand>)
        ensures
            exists|draws: Seq<(bool, bool)>|
                draws.len() == member_count(entities_per_domain) && command_views(r@)
                    == #[trigger] long_and_commands(namespace@, draws),
    {
        let mut draws: Vec<(bool, bool)> = Vec::new();
        let mut i: i32 = 0;
        while i < entities_per_domain
            invariant
                0 <= i,
                i <= entities_per_domain || i == 0,
                draws@.len() == i,
            decreases entities_per_domain - i,
        {
            let alpha = weighted_cointoss(3, 10);
            let beta = weighted_cointoss(3, 10);
            draws.push((alpha, beta));
            i += 1;
        }
        let r = self.setup_with(namespace, &draws);
        assert(draws@.len() == member_count(entities_per_domain));
        r
    }
}

} // verus!
