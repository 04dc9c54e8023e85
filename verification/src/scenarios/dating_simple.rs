//! Simple dating: a lonely man likes any woman, any man likes an exciting
//! woman, and a man dates a woman when each likes the other.

use vstd::prelude::*;
use crate::creators::conjunction;
use crate::graph::{entity_commands, implications_commands, InferenceGraph};
use crate::objects::{
    proposition_views, role_map_views, Domain, Entity, Implication, ImplicationView, Proposition,
    RoleMap,
};
use crate::proposition_db::RedisBeliefTable;
use crate::scenarios::{
    belief_if, binary_fact, binary_pattern, binary_predicate, binary_proposition, binary_relation,
    member_count, member_name, member_name_string, observe_fact, observed_fact,
    register_domain_command, register_relation_command, role_map_one, role_map_two,
    store_belief_if, unary_fact, unary_pattern, unary_predicate, unary_proposition,
    unary_relation, weighted_cointoss, ScenarioMaker, lemma_relation_letter_differs,
    lemma_couple_directions_differ, lemma_observed_fact_reads, lemma_observed_fact_writes,
    lemma_belief_if_writes, lemma_queue_writes, lemma_observed_fact_lists, lemma_queue_entry_lists,
    lemma_plain_lists,
};
use crate::search::implication_views;
use crate::store::{
    append_commands, command_views, lemma_map_read_skip, lemma_map_read_write, qualified_key,
    writes_entry, lemma_list_read_concat, list_read, CommandView, PayloadView, StoreCommand,
};
use crate::proposition_db::{belief_command, boolean_text, probabilities_key, stored_belief};
use crate::objects::{lemma_text_differs_in_role, proposition_text, role_text};
use crate::train::{push_optional, test_commands, test_queue, training_commands, training_queue, TrainingPlan};

verus! {

/// The simple dating scenario.
pub struct SimpleDating {}

/// The draws of one couple: whether he is lonely, whether she is exciting,
/// whether she likes him.
pub type DatingDraw = (bool, bool, bool);

/// What the scenario writes before its members: the two domains and the
/// six relations.
pub open spec fn simple_dating_prefix(ns: Seq<char>) -> Seq<CommandView> {
    seq![
        register_domain_command(ns, Domain::Jack),
        register_domain_command(ns, Domain::Jill),
        register_relation_command(ns, "exciting"@, seq![Domain::Jill]),
        register_relation_command(ns, "lonely"@, seq![Domain::Jack]),
        register_relation_command(ns, "lonely"@, seq![Domain::Jill]),
        register_relation_command(ns, "like"@, seq![Domain::Jack, Domain::Jill]),
        register_relation_command(ns, "like"@, seq![Domain::Jill, Domain::Jack]),
        register_relation_command(ns, "date"@, seq![Domain::Jack, Domain::Jill]),
    ]
}

/// What the `i`-th couple writes for its draws. He likes her when he is
/// lonely or she is exciting; he dates her when both like each other. Their
/// liking and dating are observed only in training.
pub open spec fn simple_dating_member(ns: Seq<char>, i: nat, d: DatingDraw) -> Seq<CommandView> {
    let is_test = i == 0;
    let jack = member_name(is_test, Domain::Jack, i);
    let jill = member_name(is_test, Domain::Jill, i);
    let (lonely, exciting, jill_likes) = d;
    let jack_likes = lonely || exciting;
    let dates = jack_likes && jill_likes;
    let jack_likes_jill = binary_fact("like"@, Domain::Jack, jack, Domain::Jill, jill);
    let jack_dates_jill = binary_fact("date"@, Domain::Jack, jack, Domain::Jill, jill);
    entity_commands(ns, Domain::Jack, jack) + entity_commands(ns, Domain::Jill, jill)
        + observed_fact(ns, unary_fact("lonely"@, Domain::Jack, jack), lonely, !is_test)
        + observed_fact(ns, unary_fact("exciting"@, Domain::Jill, jill), exciting, !is_test)
        + observed_fact(
        ns,
        binary_fact("like"@, Domain::Jill, jill, Domain::Jack, jack),
        jill_likes,
        !is_test,
    ) + belief_if(ns, !is_test, jack_likes_jill, jack_likes) + training_commands(
        ns,
        !is_test,
        jack_likes_jill,
    ) + belief_if(ns, !is_test, jack_dates_jill, dates) + training_commands(
        ns,
        !is_test,
        jack_dates_jill,
    ) + test_commands(ns, is_test, jack_dates_jill)
}

/// Whatever a training couple draws (he lonely, she exciting, she likes
/// him), once its commands have run the store says that he likes her
/// exactly when he is lonely or she is exciting, and that he dates her
/// exactly when, besides, she likes him.
pub proof fn lemma_simple_dating_training_beliefs(ns: Seq<char>, i: nat, d: DatingDraw)
    requires
        i > 0,
    ensures
        stored_belief(
            ns,
            simple_dating_member(ns, i, d),
            binary_fact("like"@, Domain::Jack, member_name(false, Domain::Jack, i), Domain::Jill, member_name(false, Domain::Jill, i)),
        ) == Some(PayloadView::Text(boolean_text(d.0 || d.1))),
        stored_belief(
            ns,
            simple_dating_member(ns, i, d),
            binary_fact("date"@, Domain::Jack, member_name(false, Domain::Jack, i), Domain::Jill, member_name(false, Domain::Jill, i)),
        ) == Some(PayloadView::Text(boolean_text((d.0 || d.1) && d.2))),
{
    let jack = member_name(false, Domain::Jack, i);
    let jill = member_name(false, Domain::Jill, i);
    let (lonely, exciting, jill_likes) = d;
    let likes = binary_fact("like"@, Domain::Jack, jack, Domain::Jill, jill);
    let dates = binary_fact("date"@, Domain::Jack, jack, Domain::Jill, jill);
    let key = qualified_key(ns, probabilities_key());
    let head = entity_commands(ns, Domain::Jack, jack) + entity_commands(ns, Domain::Jill, jill)
        + observed_fact(ns, unary_fact("lonely"@, Domain::Jack, jack), lonely, true)
        + observed_fact(ns, unary_fact("exciting"@, Domain::Jill, jill), exciting, true)
        + observed_fact(ns, binary_fact("like"@, Domain::Jill, jill, Domain::Jack, jack), jill_likes, true);
    let like_written = head.push(belief_command(ns, likes, lonely || exciting));
    let date_written = (like_written + training_commands(ns, true, likes)).push(
        belief_command(ns, dates, (lonely || exciting) && jill_likes),
    );
    let after_date = training_commands(ns, true, dates);
    let after_like = training_commands(ns, true, likes).push(belief_command(ns, dates, (lonely || exciting) && jill_likes))
        + after_date;
    assert(simple_dating_member(ns, i, d) =~= date_written + after_date);
    assert(simple_dating_member(ns, i, d) =~= like_written + after_like);
    lemma_map_read_write(
        like_written + training_commands(ns, true, likes),
        key,
        proposition_text(dates),
        PayloadView::Text(boolean_text((lonely || exciting) && jill_likes)),
    );
    lemma_map_read_skip(date_written, after_date, key, proposition_text(dates));
    lemma_like_date_texts_differ(jack, jill);
    lemma_map_read_write(head, key, proposition_text(likes), PayloadView::Text(boolean_text(lonely || exciting)));
    assert forall|k: int| 0 <= k < after_like.len() implies !writes_entry(#[trigger] after_like[k], key, proposition_text(likes)) by {
        if k == 1 {
            assert(after_like[k] == belief_command(ns, dates, (lonely || exciting) && jill_likes));
        }
    }
    lemma_map_read_skip(like_written, after_like, key, proposition_text(likes));
}

/// Whatever a couple draws, once its commands have run the store holds the
/// draws as observed: whether he is lonely, whether she is exciting, and
/// whether she likes him.
pub proof fn lemma_simple_dating_observations(ns: Seq<char>, i: nat, d: DatingDraw)
    ensures
        stored_belief(
            ns,
            simple_dating_member(ns, i, d),
            unary_fact("lonely"@, Domain::Jack, member_name(i == 0, Domain::Jack, i)),
        ) == Some(PayloadView::Text(boolean_text(d.0))),
        stored_belief(
            ns,
            simple_dating_member(ns, i, d),
            unary_fact("exciting"@, Domain::Jill, member_name(i == 0, Domain::Jill, i)),
        ) == Some(PayloadView::Text(boolean_text(d.1))),
        stored_belief(
            ns,
            simple_dating_member(ns, i, d),
            binary_fact("like"@, Domain::Jill, member_name(i == 0, Domain::Jill, i), Domain::Jack, member_name(i == 0, Domain::Jack, i)),
        ) == Some(PayloadView::Text(boolean_text(d.2))),
{
    let is_test = i == 0;
    let jack = member_name(is_test, Domain::Jack, i);
    let jill = member_name(is_test, Domain::Jill, i);
    let (lonely, exciting, jill_likes) = d;
    let jack_likes = lonely || exciting;
    let dates = jack_likes && jill_likes;
    let key = qualified_key(ns, probabilities_key());
    let lonely_fact = unary_fact("lonely"@, Domain::Jack, jack);
    let exciting_fact = unary_fact("exciting"@, Domain::Jill, jill);
    let her_like = binary_fact("like"@, Domain::Jill, jill, Domain::Jack, jack);
    let his_like = binary_fact("like"@, Domain::Jack, jack, Domain::Jill, jill);
    let date = binary_fact("date"@, Domain::Jack, jack, Domain::Jill, jill);
    let ent = entity_commands(ns, Domain::Jack, jack) + entity_commands(ns, Domain::Jill, jill);
    let o1 = observed_fact(ns, lonely_fact, lonely, !is_test);
    let o2 = observed_fact(ns, exciting_fact, exciting, !is_test);
    let o3 = observed_fact(ns, her_like, jill_likes, !is_test);
    let b4 = belief_if(ns, !is_test, his_like, jack_likes);
    let t4 = training_commands(ns, !is_test, his_like);
    let b5 = belief_if(ns, !is_test, date, dates);
    let t5 = training_commands(ns, !is_test, date);
    let x5 = test_commands(ns, is_test, date);
    let m = simple_dating_member(ns, i, d);
    assert(m == ent + o1 + o2 + o3 + b4 + t4 + b5 + t5 + x5);
    reveal_strlit("lonely");
    reveal_strlit("exciting");
    reveal_strlit("like");
    reveal_strlit("date");
    lemma_queue_writes(ns, !is_test, his_like, proposition_text(her_like));
    lemma_queue_writes(ns, !is_test, date, proposition_text(her_like));
    lemma_queue_writes(ns, is_test, date, proposition_text(her_like));
    lemma_queue_writes(ns, !is_test, his_like, proposition_text(exciting_fact));
    lemma_queue_writes(ns, !is_test, date, proposition_text(exciting_fact));
    lemma_queue_writes(ns, is_test, date, proposition_text(exciting_fact));
    lemma_queue_writes(ns, !is_test, his_like, proposition_text(lonely_fact));
    lemma_queue_writes(ns, !is_test, date, proposition_text(lonely_fact));
    lemma_queue_writes(ns, is_test, date, proposition_text(lonely_fact));
    assert(stored_belief(ns, m, her_like) == Some(PayloadView::Text(boolean_text(jill_likes)))) by {
        lemma_couple_directions_differ("like"@, is_test, i);
        lemma_relation_letter_differs("like"@, "date"@, her_like, date, 0);
        let f = proposition_text(her_like);
        lemma_observed_fact_reads(ent + o1 + o2, ns, her_like, jill_likes, !is_test);
        lemma_belief_if_writes(ns, !is_test, his_like, jack_likes, f);
        lemma_belief_if_writes(ns, !is_test, date, dates, f);
        lemma_map_read_skip(ent + o1 + o2 + o3, b4, key, f);
        lemma_map_read_skip(ent + o1 + o2 + o3 + b4, t4, key, f);
        lemma_map_read_skip(ent + o1 + o2 + o3 + b4 + t4, b5, key, f);
        lemma_map_read_skip(ent + o1 + o2 + o3 + b4 + t4 + b5, t5, key, f);
        lemma_map_read_skip(ent + o1 + o2 + o3 + b4 + t4 + b5 + t5, x5, key, f);
    }
    assert(stored_belief(ns, m, exciting_fact) == Some(PayloadView::Text(boolean_text(exciting)))) by {
        lemma_relation_letter_differs("exciting"@, "like"@, exciting_fact, her_like, 0);
        lemma_relation_letter_differs("exciting"@, "like"@, exciting_fact, his_like, 0);
        lemma_relation_letter_differs("exciting"@, "date"@, exciting_fact, date, 0);
        let f = proposition_text(exciting_fact);
        lemma_observed_fact_reads(ent + o1, ns, exciting_fact, exciting, !is_test);
        lemma_observed_fact_writes(ns, her_like, jill_likes, !is_test, f);
        lemma_belief_if_writes(ns, !is_test, his_like, jack_likes, f);
        lemma_belief_if_writes(ns, !is_test, date, dates, f);
        lemma_map_read_skip(ent + o1 + o2, o3, key, f);
        lemma_map_read_skip(ent + o1 + o2 + o3, b4, key, f);
        lemma_map_read_skip(ent + o1 + o2 + o3 + b4, t4, key, f);
        lemma_map_read_skip(ent + o1 + o2 + o3 + b4 + t4, b5, key, f);
        lemma_map_read_skip(ent + o1 + o2 + o3 + b4 + t4 + b5, t5, key, f);
        lemma_map_read_skip(ent + o1 + o2 + o3 + b4 + t4 + b5 + t5, x5, key, f);
    }
    assert(stored_belief(ns, m, lonely_fact) == Some(PayloadView::Text(boolean_text(lonely)))) by {
        lemma_relation_letter_differs("lonely"@, "exciting"@, lonely_fact, exciting_fact, 0);
        lemma_relation_letter_differs("lonely"@, "like"@, lonely_fact, her_like, 1);
        lemma_relation_letter_differs("lonely"@, "like"@, lonely_fact, his_like, 1);
        lemma_relation_letter_differs("lonely"@, "date"@, lonely_fact, date, 0);
        let f = proposition_text(lonely_fact);
        lemma_observed_fact_reads(ent, ns, lonely_fact, lonely, !is_test);
        lemma_observed_fact_writes(ns, exciting_fact, exciting, !is_test, f);
        lemma_observed_fact_writes(ns, her_like, jill_likes, !is_test, f);
        lemma_belief_if_writes(ns, !is_test, his_like, jack_likes, f);
        lemma_belief_if_writes(ns, !is_test, date, dates, f);
        lemma_map_read_skip(ent + o1, o2, key, f);
        lemma_map_read_skip(ent + o1 + o2, o3, key, f);
        lemma_map_read_skip(ent + o1 + o2 + o3, b4, key, f);
        lemma_map_read_skip(ent + o1 + o2 + o3 + b4, t4, key, f);
        lemma_map_read_skip(ent + o1 + o2 + o3 + b4 + t4, b5, key, f);
        lemma_map_read_skip(ent + o1 + o2 + o3 + b4 + t4 + b5, t5, key, f);
        lemma_map_read_skip(ent + o1 + o2 + o3 + b4 + t4 + b5 + t5, x5, key, f);
    }
}

/// What a couple's commands put on the list `key`, segment by segment.
proof fn lemma_simple_dating_list(ns: Seq<char>, i: nat, d: DatingDraw, key: Seq<char>)
    ensures
        ({
            let is_test = i == 0;
            let jack = member_name(is_test, Domain::Jack, i);
            let jill = member_name(is_test, Domain::Jill, i);
            let his_like = binary_fact("like"@, Domain::Jack, jack, Domain::Jill, jill);
            let date = binary_fact("date"@, Domain::Jack, jack, Domain::Jill, jill);
            list_read(simple_dating_member(ns, i, d), key) == list_read(
                observed_fact(ns, unary_fact("lonely"@, Domain::Jack, jack), d.0, !is_test),
                key,
            ) + list_read(observed_fact(ns, unary_fact("exciting"@, Domain::Jill, jill), d.1, !is_test), key)
                + list_read(observed_fact(ns, binary_fact("like"@, Domain::Jill, jill, Domain::Jack, jack), d.2, !is_test), key)
                + list_read(training_commands(ns, !is_test, his_like), key) + list_read(training_commands(ns, !is_test, date), key)
                + list_read(test_commands(ns, is_test, date), key)
        }),
{
    let is_test = i == 0;
    let jack = member_name(is_test, Domain::Jack, i);
    let jill = member_name(is_test, Domain::Jill, i);
    let (lonely, exciting, jill_likes) = d;
    let jack_likes = lonely || exciting;
    let dates = jack_likes && jill_likes;
    let his_like = binary_fact("like"@, Domain::Jack, jack, Domain::Jill, jill);
    let date = binary_fact("date"@, Domain::Jack, jack, Domain::Jill, jill);
    let e1 = entity_commands(ns, Domain::Jack, jack);
    let e2 = entity_commands(ns, Domain::Jill, jill);
    let o1 = observed_fact(ns, unary_fact("lonely"@, Domain::Jack, jack), lonely, !is_test);
    let o2 = observed_fact(ns, unary_fact("exciting"@, Domain::Jill, jill), exciting, !is_test);
    let o3 = observed_fact(ns, binary_fact("like"@, Domain::Jill, jill, Domain::Jack, jack), jill_likes, !is_test);
    let b4 = belief_if(ns, !is_test, his_like, jack_likes);
    let t4 = training_commands(ns, !is_test, his_like);
    let b5 = belief_if(ns, !is_test, date, dates);
    let t5 = training_commands(ns, !is_test, date);
    let x5 = test_commands(ns, is_test, date);
    assert(simple_dating_member(ns, i, d) == e1 + e2 + o1 + o2 + o3 + b4 + t4 + b5 + t5 + x5);
    lemma_plain_lists(ns, !is_test, his_like, jack_likes, Domain::Jack, jack, key);
    lemma_plain_lists(ns, !is_test, date, dates, Domain::Jill, jill, key);
    lemma_observed_fact_lists(ns, unary_fact("lonely"@, Domain::Jack, jack), lonely, !is_test, key);
    lemma_observed_fact_lists(ns, unary_fact("exciting"@, Domain::Jill, jill), exciting, !is_test, key);
    lemma_observed_fact_lists(ns, binary_fact("like"@, Domain::Jill, jill, Domain::Jack, jack), jill_likes, !is_test, key);
    lemma_queue_entry_lists(ns, !is_test, his_like, key);
    lemma_queue_entry_lists(ns, !is_test, date, key);
    lemma_queue_entry_lists(ns, is_test, date, key);
    lemma_list_read_concat(e1, e2, key);
    lemma_list_read_concat(e1 + e2, o1, key);
    lemma_list_read_concat(e1 + e2 + o1, o2, key);
    lemma_list_read_concat(e1 + e2 + o1 + o2, o3, key);
    lemma_list_read_concat(e1 + e2 + o1 + o2 + o3, b4, key);
    lemma_list_read_concat(e1 + e2 + o1 + o2 + o3 + b4, t4, key);
    lemma_list_read_concat(e1 + e2 + o1 + o2 + o3 + b4 + t4, b5, key);
    lemma_list_read_concat(e1 + e2 + o1 + o2 + o3 + b4 + t4 + b5, t5, key);
    lemma_list_read_concat(e1 + e2 + o1 + o2 + o3 + b4 + t4 + b5 + t5, x5, key);
    assert(list_read(simple_dating_member(ns, i, d), key) =~= list_read(o1, key) + list_read(o2, key) + list_read(o3, key)
        + list_read(t4, key) + list_read(t5, key) + list_read(x5, key));
}

/// A training couple puts on the training list, in order, his loneliness,
/// her excitement, her liking him, his liking her and his dating her, and
/// nothing on the test list; the test couple puts only his dating her on
/// the test list, and nothing on the training list.
pub proof fn lemma_simple_dating_queues(ns: Seq<char>, i: nat, d: DatingDraw)
    ensures
        list_read(simple_dating_member(ns, i, d), qualified_key(ns, training_queue())) == (if i == 0 {
            Seq::<PayloadView>::empty()
        } else {
            seq![
                PayloadView::Proposition(unary_fact("lonely"@, Domain::Jack, member_name(false, Domain::Jack, i))),
                PayloadView::Proposition(unary_fact("exciting"@, Domain::Jill, member_name(false, Domain::Jill, i))),
                PayloadView::Proposition(binary_fact("like"@, Domain::Jill, member_name(false, Domain::Jill, i), Domain::Jack, member_name(false, Domain::Jack, i))),
                PayloadView::Proposition(binary_fact("like"@, Domain::Jack, member_name(false, Domain::Jack, i), Domain::Jill, member_name(false, Domain::Jill, i))),
                PayloadView::Proposition(binary_fact("date"@, Domain::Jack, member_name(false, Domain::Jack, i), Domain::Jill, member_name(false, Domain::Jill, i))),
            ]
        }),
        list_read(simple_dating_member(ns, i, d), qualified_key(ns, test_queue())) == (if i == 0 {
            seq![PayloadView::Proposition(binary_fact("date"@, Domain::Jack, member_name(true, Domain::Jack, 0), Domain::Jill, member_name(true, Domain::Jill, 0)))]
        } else {
            Seq::<PayloadView>::empty()
        }),
{
    crate::train::lemma_queues_apart(ns);
    lemma_simple_dating_list(ns, i, d, qualified_key(ns, training_queue()));
    lemma_simple_dating_list(ns, i, d, qualified_key(ns, test_queue()));
    let is_test = i == 0;
    let jack = member_name(is_test, Domain::Jack, i);
    let jill = member_name(is_test, Domain::Jill, i);
    let tr = qualified_key(ns, training_queue());
    let te = qualified_key(ns, test_queue());
    lemma_observed_fact_lists(ns, unary_fact("lonely"@, Domain::Jack, jack), d.0, !is_test, tr);
    lemma_observed_fact_lists(ns, unary_fact("exciting"@, Domain::Jill, jill), d.1, !is_test, tr);
    lemma_observed_fact_lists(ns, binary_fact("like"@, Domain::Jill, jill, Domain::Jack, jack), d.2, !is_test, tr);
    lemma_observed_fact_lists(ns, unary_fact("lonely"@, Domain::Jack, jack), d.0, !is_test, te);
    lemma_observed_fact_lists(ns, unary_fact("exciting"@, Domain::Jill, jill), d.1, !is_test, te);
    lemma_observed_fact_lists(ns, binary_fact("like"@, Domain::Jill, jill, Domain::Jack, jack), d.2, !is_test, te);
    let his_like = binary_fact("like"@, Domain::Jack, jack, Domain::Jill, jill);
    let date = binary_fact("date"@, Domain::Jack, jack, Domain::Jill, jill);
    lemma_queue_entry_lists(ns, !is_test, his_like, tr);
    lemma_queue_entry_lists(ns, !is_test, date, tr);
    lemma_queue_entry_lists(ns, is_test, date, tr);
    lemma_queue_entry_lists(ns, !is_test, his_like, te);
    lemma_queue_entry_lists(ns, !is_test, date, te);
    lemma_queue_entry_lists(ns, is_test, date, te);
    if is_test {
        assert(list_read(simple_dating_member(ns, i, d), tr) =~= Seq::<PayloadView>::empty());
        assert(list_read(simple_dating_member(ns, i, d), te) =~= seq![PayloadView::Proposition(date)]);
    } else {
        assert(list_read(simple_dating_member(ns, i, d), tr) =~= seq![
            PayloadView::Proposition(unary_fact("lonely"@, Domain::Jack, jack)),
            PayloadView::Proposition(unary_fact("exciting"@, Domain::Jill, jill)),
            PayloadView::Proposition(binary_fact("like"@, Domain::Jill, jill, Domain::Jack, jack)),
            PayloadView::Proposition(his_like),
            PayloadView::Proposition(date),
        ]);
        assert(list_read(simple_dating_member(ns, i, d), te) =~= Seq::<PayloadView>::empty());
    }
}

/// The texts of `like` and `date` between the same couple differ.
proof fn lemma_like_date_texts_differ(jack: Seq<char>, jill: Seq<char>)
    ensures
        proposition_text(binary_fact("like"@, Domain::Jack, jack, Domain::Jill, jill)) != proposition_text(
            binary_fact("date"@, Domain::Jack, jack, Domain::Jill, jill),
        ),
{
    reveal_strlit("like");
    reveal_strlit("date");
    reveal_strlit("relation");
    reveal_strlit("=");
    let p = binary_fact("like"@, Domain::Jack, jack, Domain::Jill, jill);
    let q = binary_fact("date"@, Domain::Jack, jack, Domain::Jill, jill);
    assert(role_text(p[0]) == "relation"@ + "="@ + "like"@);
    assert(role_text(q[0]) == "relation"@ + "="@ + "date"@);
    assert(role_text(p[0])[9] != role_text(q[0])[9]);
    assert forall|k: int| 0 <= k < p.len() && k != 0 implies p[k] == q[k] by {}
    lemma_text_differs_in_role(p, q, 0);
}

/// What the couples write, for their draws.
pub open spec fn simple_dating_members(ns: Seq<char>, draws: Seq<DatingDraw>) -> Seq<CommandView>
    decreases draws.len(),
{
    if draws.len() == 0 {
        Seq::empty()
    } else {
        simple_dating_members(ns, draws.drop_last()) + simple_dating_member(
            ns,
            (draws.len() - 1) as nat,
            draws.last(),
        )
    }
}

/// Loneliness leads to liking, being exciting to being liked, and liking
/// each other to dating.
pub open spec fn simple_dating_implications() -> Seq<ImplicationView> {
    seq![
        ImplicationView {
            premise: seq![unary_pattern("lonely"@, Domain::Jack)],
            conclusion: binary_pattern("like"@, Domain::Jack, Domain::Jill),
            role_maps: seq![seq![("sub"@, "sub"@)]],
        },
        ImplicationView {
            premise: seq![unary_pattern("exciting"@, Domain::Jill)],
            conclusion: binary_pattern("like"@, Domain::Jack, Domain::Jill),
            role_maps: seq![seq![("obj"@, "sub"@)]],
        },
        ImplicationView {
            premise: seq![
                binary_pattern("like"@, Domain::Jill, Domain::Jack),
                binary_pattern("like"@, Domain::Jack, Domain::Jill),
            ],
            conclusion: binary_pattern("date"@, Domain::Jack, Domain::Jill),
            role_maps: seq![
                seq![("sub"@, "obj"@), ("obj"@, "sub"@)],
                seq![("sub"@, "sub"@), ("obj"@, "obj"@)],
            ],
        },
    ]
}

/// What the scenario writes, for the draws of its couples.
pub open spec fn simple_dating_commands(ns: Seq<char>, draws: Seq<DatingDraw>) -> Seq<CommandView> {
    simple_dating_prefix(ns) + simple_dating_members(ns, draws) + implications_commands(
        ns,
        simple_dating_implications(),
    )
}

fn simple_dating_prefix_commands(graph: &InferenceGraph) -> (r: Vec<StoreCommand>)
    ensures
        command_views(r@) == simple_dating_prefix(graph.namespace@),
{
    let mut r: Vec<StoreCommand> = Vec::new();
    let jack = Domain::Jack.to_string();
    let jill = Domain::Jill.to_string();
    r.push(graph.register_domain(jack.as_str()));
    r.push(graph.register_domain(jill.as_str()));
    r.push(graph.register_relation(&unary_relation("exciting", Domain::Jill)));
    r.push(graph.register_relation(&unary_relation("lonely", Domain::Jack)));
    r.push(graph.register_relation(&unary_relation("lonely", Domain::Jill)));
    r.push(graph.register_relation(&binary_relation("like", Domain::Jack, Domain::Jill)));
    r.push(graph.register_relation(&binary_relation("like", Domain::Jill, Domain::Jack)));
    r.push(graph.register_relation(&binary_relation("date", Domain::Jack, Domain::Jill)));
    assert(command_views(r@) =~= simple_dating_prefix(graph.namespace@));
    r
}

fn simple_dating_member_commands(
    graph: &InferenceGraph,
    table: &RedisBeliefTable,
    plan: &TrainingPlan,
    i: u32,
    d: DatingDraw,
) -> (r: Vec<StoreCommand>)
    requires
        table.namespace@ == graph.namespace@,
        plan.namespace@ == graph.namespace@,
    ensures
        command_views(r@) == simple_dating_member(graph.namespace@, i as nat, d),
{
    let is_test = i == 0;
    let is_training = !is_test;
    let (lonely, exciting, jill_likes) = d;
    let jack_likes = lonely || exciting;
    let dates = jack_likes && jill_likes;
    let jack = Entity { domain: Domain::Jack, name: member_name_string(is_test, Domain::Jack, i) };
    let jill = Entity { domain: Domain::Jill, name: member_name_string(is_test, Domain::Jill, i) };
    let mut out = graph.store_entity(&jack);
    append_commands(&mut out, graph.store_entity(&jill));
    let jack_lonely = unary_proposition("lonely", Domain::Jack, jack.name.as_str());
    append_commands(&mut out, observe_fact(graph, table, plan, &jack_lonely, lonely, is_training));
    let jill_exciting = unary_proposition("exciting", Domain::Jill, jill.name.as_str());
    append_commands(
        &mut out,
        observe_fact(graph, table, plan, &jill_exciting, exciting, is_training),
    );
    let jill_likes_jack = binary_proposition(
        "like",
        Domain::Jill,
        jill.name.as_str(),
        Domain::Jack,
        jack.name.as_str(),
    );
    append_commands(
        &mut out,
        observe_fact(graph, table, plan, &jill_likes_jack, jill_likes, is_training),
    );
    let jack_likes_jill = binary_proposition(
        "like",
        Domain::Jack,
        jack.name.as_str(),
        Domain::Jill,
        jill.name.as_str(),
    );
    push_optional(&mut out, store_belief_if(table, is_training, &jack_likes_jill, jack_likes));
    push_optional(&mut out, plan.maybe_add_to_training(is_training, &jack_likes_jill));
    let jack_dates_jill = binary_proposition(
        "date",
        Domain::Jack,
        jack.name.as_str(),
        Domain::Jill,
        jill.name.as_str(),
    );
    push_optional(&mut out, store_belief_if(table, is_training, &jack_dates_jill, dates));
    push_optional(&mut out, plan.maybe_add_to_training(is_training, &jack_dates_jill));
    push_optional(&mut out, plan.maybe_add_to_test(is_test, &jack_dates_jill));
    out
}

fn simple_dating_implication_list() -> (r: Vec<Implication>)
    ensures
        implication_views(r@) == simple_dating_implications(),
{
    proof {
        reveal_strlit("sub");
        reveal_strlit("obj");
        assert("sub"@ != "obj"@) by {
            assert("sub"@[0] != "obj"@[0]);
        }
    }
    let mut r: Vec<Implication> = Vec::new();
    let mut p1: Vec<Proposition> = Vec::new();
    p1.push(unary_predicate("lonely", Domain::Jack));
    let mut m1: Vec<RoleMap> = Vec::new();
    m1.push(role_map_one("sub", "sub"));
    let mut p2: Vec<Proposition> = Vec::new();
    p2.push(unary_predicate("exciting", Domain::Jill));
    let mut m2: Vec<RoleMap> = Vec::new();
    m2.push(role_map_one("obj", "sub"));
    let mut p3: Vec<Proposition> = Vec::new();
    p3.push(binary_predicate("like", Domain::Jill, Domain::Jack));
    p3.push(binary_predicate("like", Domain::Jack, Domain::Jill));
    let mut m3: Vec<RoleMap> = Vec::new();
    m3.push(role_map_two("sub", "obj", "obj", "sub"));
    m3.push(role_map_two("sub", "sub", "obj", "obj"));
    let ghost v = simple_dating_implications();
    proof {
        assert(proposition_views(p1@) =~= v[0].premise);
        assert(role_map_views(m1@) =~= v[0].role_maps);
        assert(proposition_views(p2@) =~= v[1].premise);
        assert(role_map_views(m2@) =~= v[1].role_maps);
        assert(proposition_views(p3@) =~= v[2].premise);
        assert(role_map_views(m3@) =~= v[2].role_maps);
    }
    r.push(
        crate::creators::implication(
            conjunction(p1),
            binary_predicate("like", Domain::Jack, Domain::Jill),
            m1,
        ),
    );
    r.push(
        crate::creators::implication(
            conjunction(p2),
            binary_predicate("like", Domain::Jack, Domain::Jill),
            m2,
        ),
    );
    r.push(
        crate::creators::implication(
            conjunction(p3),
            binary_predicate("date", Domain::Jack, Domain::Jill),
            m3,
        ),
    );
    proof {
        assert(implication_views(r@) =~= v);
    }
    r
}

impl SimpleDating {
    /// The commands of the scenario in `namespace` for the given draws, one
    /// per couple; the couple at index 0 is the test couple.
    pub fn setup_with(&self, namespace: &str, draws: &Vec<DatingDraw>) -> (r: Vec<StoreCommand>)
        requires
            draws@.len() <= u32::MAX,
        ensures
            command_views(r@) == simple_dating_commands(namespace@, draws@),
    {
        let graph = InferenceGraph::new_literal(String::from_str(namespace));
        let table = RedisBeliefTable { namespace: String::from_str(namespace) };
        let plan = TrainingPlan::new(String::from_str(namespace));
        let mut out = simple_dating_prefix_commands(&graph);
        let ghost prefix = command_views(out@);
        let mut members: Vec<StoreCommand> = Vec::new();
        let mut i: usize = 0;
        while i < draws.len()
            invariant
                0 <= i <= draws.len(),
                draws@.len() <= u32::MAX,
                graph.namespace@ == namespace@,
                table.namespace@ == namespace@,
                plan.namespace@ == namespace@,
                command_views(members@) == simple_dating_members(namespace@, draws@.take(i as int)),
            decreases draws.len() - i,
        {
            let block = simple_dating_member_commands(&graph, &table, &plan, i as u32, draws[i]);
            append_commands(&mut members, block);
            proof {
                assert(draws@.take(i + 1).drop_last() =~= draws@.take(i as int));
            }
            i += 1;
        }
        proof {
            assert(draws@.take(i as int) =~= draws@);
        }
        append_commands(&mut out, members);
        let implications = simple_dating_implication_list();
        append_commands(&mut out, graph.store_predicate_implications(&implications));
        out
    }
}

impl ScenarioMaker for SimpleDating {
    /// Draws, for each couple, whether he is lonely (three in ten), whether
    /// she is exciting (six in ten) and whether she likes him (four in ten),
    /// and writes the scenario for the draws.
    fn setup_scenario(&self, namespace: &str, entities_per_domain: i32) -> (r: Vec<StoreCommand>)
        ensures
            exists|draws: Seq<DatingDraw>|
                draws.len() == member_count(entities_per_domain) && command_views(r@)
                    == #[trigger] simple_dating_commands(namespace@, draws),
    {
        let mut draws: Vec<DatingDraw> = Vec::new();
        let mut i: i32 = 0;
        while i < entities_per_domain
            invariant
                0 <= i,
                i <= entities_per_domain || i == 0,
                draws@.len() == i,
            decreases entities_per_domain - i,
        {
            let lonely = weighted_cointoss(3, 10);
            let exciting = weighted_cointoss(6, 10);
            let jill_likes = weighted_cointoss(4, 10);
            draws.push((lonely, exciting, jill_likes));
            i += 1;
        }
        let r = self.setup_with(namespace, &draws);
        assert(draws@.len() == member_count(entities_per_domain));
        r
    }
}

} // verus!
