//! Two facts about each man, equally drawn: being exciting, and being rich,
//! which the one implication concludes from being exciting.

use vstd::prelude::*;
use crate::graph::{entity_commands, implication_commands, implications_commands, InferenceGraph};
use crate::creators::conjunction;
use crate::objects::{
    proposition_views, role_map_views, Domain, Entity, Implication, ImplicationView, Proposition,
    RoleMap,
};
use crate::proposition_db::{belief_command, boolean_text, probabilities_key, stored_belief, RedisBeliefTable};
use crate::scenarios::{
    lemma_first_letters_differ, lemma_queue_entry_lists, member_count, member_name, member_name_string, role_map_one,
    unary_fact, unary_pattern, unary_predicate, unary_proposition, weighted_cointoss, ScenarioMaker,
};
use crate::objects::proposition_text;
use crate::search::{existence_implication, implication_views};
use crate::store::{
    append_commands, command_views, lemma_map_read_skip, lemma_map_read_write, push_command,
    qualified_key, writes_entry, lemma_list_read_concat, lemma_list_read_none, list_read, CommandView,
    PayloadView, StoreCommand,
};
use crate::train::{push_optional, test_commands, test_queue, training_commands, training_queue, TrainingPlan};

verus! {

/// The scenario of one variable drawn for two relations.
pub struct TwoVariable {}

/// What the `i`-th member writes, for its draw `coin`.
pub open spec fn two_var_member(ns: Seq<char>, i: nat, coin: bool) -> Seq<CommandView> {
    let name = member_name(i == 0, Domain::Jack, i);
    let exciting = unary_fact("exciting"@, Domain::Jack, name);
    let rich = unary_fact("rich"@, Domain::Jack, name);
    (((entity_commands(ns, Domain::Jack, name) + implication_commands(
        ns,
        existence_implication(exciting),
    )).push(belief_command(ns, exciting, coin)) + training_commands(ns, i != 0, exciting)
        + implication_commands(ns, existence_implication(rich))).push(
        belief_command(ns, rich, coin),
    ) + training_commands(ns, i != 0, rich)) + test_commands(ns, i == 0, rich)
}

/// Whatever a member draws, once its commands have run the store holds
/// the draw both as whether he is exciting and as whether he is rich: the
/// two always agree.
pub proof fn lemma_two_var_beliefs(ns: Seq<char>, i: nat, coin: bool)
    ensures
        stored_belief(
            ns,
            two_var_member(ns, i, coin),
            unary_fact("exciting"@, Domain::Jack, member_name(i == 0, Domain::Jack, i)),
        ) == Some(PayloadView::Text(boolean_text(coin))),
        stored_belief(
            ns,
            two_var_member(ns, i, coin),
            unary_fact("rich"@, Domain::Jack, member_name(i == 0, Domain::Jack, i)),
        ) == Some(PayloadView::Text(boolean_text(coin))),
{
    let name = member_name(i == 0, Domain::Jack, i);
    let exciting = unary_fact("exciting"@, Domain::Jack, name);
    let rich = unary_fact("rich"@, Domain::Jack, name);
    let key = qualified_key(ns, probabilities_key());
    let v = PayloadView::Text(boolean_text(coin));
    let head = entity_commands(ns, Domain::Jack, name) + implication_commands(ns, existence_implication(exciting));
    let after_exciting = (training_commands(ns, i != 0, exciting) + implication_commands(
        ns,
        existence_implication(rich),
    )).push(belief_command(ns, rich, coin)) + training_commands(ns, i != 0, rich) + test_commands(ns, i == 0, rich);
    let upto_rich = (head.push(belief_command(ns, exciting, coin)) + training_commands(ns, i != 0, exciting)
        + implication_commands(ns, existence_implication(rich)));
    let after_rich = training_commands(ns, i != 0, rich) + test_commands(ns, i == 0, rich);
    assert(two_var_member(ns, i, coin) =~= head.push(belief_command(ns, exciting, coin)) + after_exciting);
    assert(two_var_member(ns, i, coin) =~= upto_rich.push(belief_command(ns, rich, coin)) + after_rich);
    lemma_map_read_write(upto_rich, key, proposition_text(rich), v);
    assert forall|k: int| 0 <= k < after_rich.len() implies !writes_entry(#[trigger] after_rich[k], key, proposition_text(rich)) by {}
    lemma_map_read_skip(upto_rich.push(belief_command(ns, rich, coin)), after_rich, key, proposition_text(rich));
    reveal_strlit("exciting");
    reveal_strlit("rich");
    lemma_first_letters_differ("exciting"@, "rich"@, exciting, rich);
    lemma_map_read_write(head, key, proposition_text(exciting), v);
    assert forall|k: int| 0 <= k < after_exciting.len() implies !writes_entry(
        #[trigger] after_exciting[k],
        key,
        proposition_text(exciting),
    ) by {}
    lemma_map_read_skip(head.push(belief_command(ns, exciting, coin)), after_exciting, key, proposition_text(exciting));
}

/// A training member puts whether he is exciting and whether he is rich,
/// in that order, on the training list and nothing on the test list; the
/// test member puts only whether he is rich on the test list.
pub proof fn lemma_two_var_queues(ns: Seq<char>, i: nat, coin: bool)
    ensures
        list_read(two_var_member(ns, i, coin), qualified_key(ns, training_queue())) == (if i == 0 {
            Seq::<PayloadView>::empty()
        } else {
            seq![
                PayloadView::Proposition(unary_fact("exciting"@, Domain::Jack, member_name(false, Domain::Jack, i))),
                PayloadView::Proposition(unary_fact("rich"@, Domain::Jack, member_name(false, Domain::Jack, i))),
            ]
        }),
        list_read(two_var_member(ns, i, coin), qualified_key(ns, test_queue())) == (if i == 0 {
            seq![PayloadView::Proposition(unary_fact("rich"@, Domain::Jack, member_name(true, Domain::Jack, 0)))]
        } else {
            Seq::<PayloadView>::empty()
        }),
{
    let name = member_name(i == 0, Domain::Jack, i);
    let exciting = unary_fact("exciting"@, Domain::Jack, name);
    let rich = unary_fact("rich"@, Domain::Jack, name);
    let e = entity_commands(ns, Domain::Jack, name);
    let i1 = implication_commands(ns, existence_implication(exciting));
    let b1 = seq![belief_command(ns, exciting, coin)];
    let q1 = training_commands(ns, i != 0, exciting);
    let i2 = implication_commands(ns, existence_implication(rich));
    let b2 = seq![belief_command(ns, rich, coin)];
    let q2 = training_commands(ns, i != 0, rich);
    let q3 = test_commands(ns, i == 0, rich);
    assert(two_var_member(ns, i, coin) =~= e + i1 + b1 + q1 + i2 + b2 + q2 + q3);
    crate::train::lemma_queues_apart(ns);
    let tr = qualified_key(ns, training_queue());
    let te = qualified_key(ns, test_queue());
    assert forall|key: Seq<char>| key == tr || key == te implies list_read(two_var_member(ns, i, coin), key) == list_read(q1, key)
        + list_read(q2, key) + list_read(q3, key) by {
        lemma_list_read_none(e, key);
        lemma_list_read_none(i1, key);
        lemma_list_read_none(b1, key);
        lemma_list_read_none(i2, key);
        lemma_list_read_none(b2, key);
        lemma_queue_entry_lists(ns, i != 0, exciting, key);
        lemma_queue_entry_lists(ns, i != 0, rich, key);
        lemma_queue_entry_lists(ns, i == 0, rich, key);
        lemma_list_read_concat(e, i1, key);
        lemma_list_read_concat(e + i1, b1, key);
        lemma_list_read_concat(e + i1 + b1, q1, key);
        lemma_list_read_concat(e + i1 + b1 + q1, i2, key);
        lemma_list_read_concat(e + i1 + b1 + q1 + i2, b2, key);
        lemma_list_read_concat(e + i1 + b1 + q1 + i2 + b2, q2, key);
        lemma_list_read_concat(e + i1 + b1 + q1 + i2 + b2 + q2, q3, key);
        assert(list_read(two_var_member(ns, i, coin), key) =~= list_read(q1, key) + list_read(q2, key) + list_read(q3, key));
    }
    lemma_queue_entry_lists(ns, i != 0, exciting, tr);
    lemma_queue_entry_lists(ns, i != 0, rich, tr);
    lemma_queue_entry_lists(ns, i == 0, rich, tr);
    lemma_queue_entry_lists(ns, i != 0, exciting, te);
    lemma_queue_entry_lists(ns, i != 0, rich, te);
    lemma_queue_entry_lists(ns, i == 0, rich, te);
    if i == 0 {
        assert(list_read(two_var_member(ns, i, coin), tr) =~= Seq::<PayloadView>::empty());
        assert(list_read(two_var_member(ns, i, coin), te) =~= seq![PayloadView::Proposition(rich)]);
    } else {
        assert(list_read(two_var_member(ns, i, coin), tr) =~= seq![PayloadView::Proposition(exciting), PayloadView::Proposition(rich)]);
        assert(list_read(two_var_member(ns, i, coin), te) =~= Seq::<PayloadView>::empty());
    }
}

/// What the members write, for their draws.
pub open spec fn two_var_members(ns: Seq<char>, coins: Seq<bool>) -> Seq<CommandView>
    decreases coins.len(),
{
    if coins.len() == 0 {
        Seq::empty()
    } else {
        two_var_members(ns, coins.drop_last()) + two_var_member(
            ns,
            (coins.len() - 1) as nat,
            coins.last(),
        )
    }
}

/// Being exciting implies being rich.
pub open spec fn two_var_implications() -> Seq<ImplicationView> {
    seq![
        ImplicationView {
            premise: seq![unary_pattern("exciting"@, Domain::Jack)],
            conclusion: unary_pattern("rich"@, Domain::Jack),
            role_maps: seq![seq![("sub"@, "sub"@)]],
        },
    ]
}

/// What the scenario writes, for the draws of its members.
pub open spec fn two_var_commands(ns: Seq<char>, coins: Seq<bool>) -> Seq<CommandView> {
    two_var_members(ns, coins) + implications_commands(ns, two_var_implications())
}

fn two_var_member_commands(
    graph: &InferenceGraph,
    table: &RedisBeliefTable,
    plan: &TrainingPlan,
    i: u32,
    coin: bool,
) -> (r: Vec<StoreCommand>)
    requires
        table.namespace@ == graph.namespace@,
        plan.namespace@ == graph.namespace@,
    ensures
        command_views(r@) == two_var_member(graph.namespace@, i as nat, coin),
{
    let is_test = i == 0;
    let is_training = !is_test;
    let name = member_name_string(is_test, Domain::Jack, i);
    let entity = Entity { domain: Domain::Jack, name };
    let mut out = graph.store_entity(&entity);
    let exciting = unary_proposition("exciting", Domain::Jack, entity.name.as_str());
    append_commands(&mut out, graph.ensure_existence_backlinks_for_proposition(&exciting));
    push_command(&mut out, table.store_proposition_boolean(&exciting, coin));
    push_optional(&mut out, plan.maybe_add_to_training(is_training, &exciting));
    let rich = unary_proposition("rich", Domain::Jack, entity.name.as_str());
    append_commands(&mut out, graph.ensure_existence_backlinks_for_proposition(&rich));
    push_command(&mut out, table.store_proposition_boolean(&rich, coin));
    push_optional(&mut out, plan.maybe_add_to_training(is_training, &rich));
    push_optional(&mut out, plan.maybe_add_to_test(is_test, &rich));
    out
}

fn two_var_implication_list() -> (r: Vec<Implication>)
    ensures
        implication_views(r@) == two_var_implications(),
{
    let mut premise: Vec<Proposition> = Vec::new();
    premise.push(unary_predicate("exciting", Domain::Jack));
    let mut maps: Vec<RoleMap> = Vec::new();
    maps.push(role_map_one("sub", "sub"));
    proof {
        assert(proposition_views(premise@) =~= seq![unary_pattern("exciting"@, Domain::Jack)]);
        assert(role_map_views(maps@) =~= seq![seq![("sub"@, "sub"@)]]);
    }
    let mut r: Vec<Implication> = Vec::new();
    r.push(
        crate::creators::implication(
            conjunction(premise),
            unary_predicate("rich", Domain::Jack),
            maps,
        ),
    );
    proof {
        assert(implication_views(r@) =~= two_var_implications());
    }
    r
}

impl TwoVariable {
    /// The commands of the scenario in `namespace` for the given draws, one
    /// per member; the member at index 0 is the test member.
    pub fn setup_with(&self, namespace: &str, coins: &Vec<bool>) -> (r: Vec<StoreCommand>)
        requires
            coins@.len() <= u32::MAX,
        ensures
            command_views(r@) == two_var_commands(namespace@, coins@),
    {
        let graph = InferenceGraph::new_literal(String::from_str(namespace));
        let table = RedisBeliefTable { namespace: String::from_str(namespace) };
        let plan = TrainingPlan::new(String::from_str(namespace));
        let mut out: Vec<StoreCommand> = Vec::new();
        let mut i: usize = 0;
        while i < coins.len()
            invariant
                0 <= i <= coins.len(),
                coins@.len() <= u32::MAX,
                graph.namespace@ == namespace@,
                table.namespace@ == namespace@,
                plan.namespace@ == namespace@,
                command_views(out@) == two_var_members(namespace@, coins@.take(i as int)),
            decreases coins.len() - i,
        {
            let block = two_var_member_commands(&graph, &table, &plan, i as u32, coins[i]);
            append_commands(&mut out, block);
            proof {
                assert(coins@.take(i + 1).drop_last() =~= coins@.take(i as int));
            }
            i += 1;
        }
        proof {
            assert(coins@.take(i as int) =~= coins@);
        }
        let implications = two_var_implication_list();
        append_commands(&mut out, graph.store_predicate_implications(&implications));
        out
    }
}

impl ScenarioMaker for TwoVariable {
    /// Draws, for each member, whether he is exciting (three in ten), and
    /// writes the scenario for the draws.
    fn setup_scenario(&self, namespace: &str, entities_per_domain: i32) -> (r: Vec<StoreCommand>)
        ensures
            exists|coins: Seq<bool>|
                coins.len() == member_count(entities_per_domain) && command_views(r@)
                    == #[trigger] two_var_commands(namespace@, coins),
    {
        let mut coins: Vec<bool> = Vec::new();
        let mut i: i32 = 0;
        while i < entities_per_domain
            invariant
                0 <= i,
                i <= entities_per_domain || i == 0,
                coins@.len() == i,
            decreases entities_per_domain - i,
        {
            coins.push(weighted_cointoss(3, 10));
            i += 1;
        }
        let r = self.setup_with(namespace, &coins);
        assert(coins@.len() == member_count(entities_per_domain));
        r
    }
}

} // verus!
