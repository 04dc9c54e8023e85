//! The second, probabilistic dating world, kept in the store without
//! namespaces: liking follows loneliness or excitement only eight times in
//! ten, and dating follows mutual liking only seven times in ten.

use vstd::prelude::*;
use crate::creators::conjunction;
use crate::objects::{
    domain_text, proposition_views, role_map_views, Domain, Entity, Implication, ImplicationView,
    Proposition, RoleMap,
};
use crate::scenarios::dating1::{
    relation_fact, relation_pattern, relation_predicate, relation_proposition, store_implications,
    raw_implications_commands, stored_fact, subject_fact, subject_pattern, subject_predicate,
    subject_proposition,
};
use crate::scenarios::{
    member_count, member_name, member_name_string, prefix_text, role_map_one, role_map_two,
    weighted_cointoss,
};
use crate::scenarios::dating1::{lemma_subject_relations_differ, lemma_subjects_differ};
use crate::search::implication_views;
use crate::storage::{probability_record, raw_queue_push, Storage};
use crate::store::{
    append_commands, command_views, lemma_map_read_skip, lemma_map_read_write, map_read, push_command,
    writes_entry, CommandView, PayloadView, StoreCommand,
};
use crate::proposition_db::boolean_text;
use crate::objects::{lemma_texts_differ_at, proposition_text, role_text};
use crate::train::{optional_views, push_optional};

verus! {

/// The second dating scenario.
pub struct DatingProb2 {}

/// The draws of one couple: whether he is lonely, whether she is exciting,
/// whether she likes him, whether his liking follows (eight in ten), whether
/// their dating follows (seven in ten).
pub type Prob2Draw = (bool, bool, bool, bool, bool);

/// Appends `p` to the list `queue` when `cond`.
pub open spec fn queue_if(cond: bool, queue: Seq<char>, p: crate::objects::PropositionView) -> Seq<CommandView> {
    if cond {
        seq![raw_queue_push(queue, p)]
    } else {
        Seq::empty()
    }
}

/// Records the observation `b` of `p` when `cond`.
pub open spec fn probability_if(cond: bool, p: crate::objects::PropositionView, b: bool) -> Seq<CommandView> {
    if cond {
        seq![probability_record(p, b)]
    } else {
        Seq::empty()
    }
}

/// What the `i`-th couple writes for its draws; every tenth couple, from the
/// tenth on, is a test couple.
pub open spec fn prob2_member(i: nat, d: Prob2Draw) -> Seq<CommandView> {
    let is_test = i % 10 == 9;
    let jack = member_name(is_test, Domain::Jack, i);
    let jill = member_name(is_test, Domain::Jill, i);
    let jack_likes = (d.0 || d.1) && d.3;
    let dates = jack_likes && d.2 && d.4;
    let jack_likes_jill = relation_fact("like"@, Domain::Jack, jack, Domain::Jill, jill);
    let jack_dates_jill = relation_fact("date"@, Domain::Jack, jack, Domain::Jill, jill);
    seq![
        CommandView::SetAdd { key: domain_text(Domain::Jack), member: PayloadView::Text(jack) },
        CommandView::SetAdd { key: domain_text(Domain::Jill), member: PayloadView::Text(jill) },
        probability_record(subject_fact("lonely"@, Domain::Jack, jack), d.0),
    ] + stored_fact(subject_fact("exciting"@, Domain::Jill, jill), d.1) + seq![
        probability_record(relation_fact("like"@, Domain::Jill, jill, Domain::Jack, jack), d.2),
    ] + probability_if(!is_test, jack_likes_jill, jack_likes) + queue_if(
        !is_test,
        "training_queue"@,
        jack_likes_jill,
    ) + seq![probability_record(jack_dates_jill, dates)] + queue_if(
        !is_test,
        "training_queue"@,
        jack_dates_jill,
    ) + queue_if(is_test, "test_queue"@, jack_dates_jill)
}

/// Whatever a couple draws, once its records are written the hash of
/// probabilities says that he dates her exactly when he likes her, she
/// likes him and the dating draw came up; and, for a training couple, that
/// he likes her exactly when he is lonely or she is exciting and the liking
/// draw came up.
pub proof fn lemma_prob2_probabilities(i: nat, d: Prob2Draw)
    ensures
        map_read(
            prob2_member(i, d),
            "probs"@,
            proposition_text(relation_fact("date"@, Domain::Jack, member_name(i % 10 == 9, Domain::Jack, i), Domain::Jill, member_name(i % 10 == 9, Domain::Jill, i))),
        ) == Some(PayloadView::Text(boolean_text((d.0 || d.1) && d.3 && d.2 && d.4))),
        i % 10 != 9 ==> map_read(
            prob2_member(i, d),
            "probs"@,
            proposition_text(relation_fact("like"@, Domain::Jack, member_name(false, Domain::Jack, i), Domain::Jill, member_name(false, Domain::Jill, i))),
        ) == Some(PayloadView::Text(boolean_text((d.0 || d.1) && d.3))),
{
    let is_test = i % 10 == 9;
    let jack = member_name(is_test, Domain::Jack, i);
    let jill = member_name(is_test, Domain::Jill, i);
    let jack_likes = (d.0 || d.1) && d.3;
    let dates = jack_likes && d.2 && d.4;
    let likes = relation_fact("like"@, Domain::Jack, jack, Domain::Jill, jill);
    let date = relation_fact("date"@, Domain::Jack, jack, Domain::Jill, jill);
    let head = seq![
        CommandView::SetAdd { key: domain_text(Domain::Jack), member: PayloadView::Text(jack) },
        CommandView::SetAdd { key: domain_text(Domain::Jill), member: PayloadView::Text(jill) },
        probability_record(subject_fact("lonely"@, Domain::Jack, jack), d.0),
    ] + stored_fact(subject_fact("exciting"@, Domain::Jill, jill), d.1) + seq![
        probability_record(relation_fact("like"@, Domain::Jill, jill, Domain::Jack, jack), d.2),
    ];
    let q1 = queue_if(!is_test, "training_queue"@, likes);
    let q2 = queue_if(!is_test, "training_queue"@, date) + queue_if(is_test, "test_queue"@, date);
    let m = prob2_member(i, d);
    let v_date = PayloadView::Text(boolean_text(dates));
    assert(m =~= (head + probability_if(!is_test, likes, jack_likes) + q1).push(probability_record(date, dates)) + q2);
    lemma_map_read_write(head + probability_if(!is_test, likes, jack_likes) + q1, "probs"@, proposition_text(date), v_date);
    assert forall|k: int| 0 <= k < q2.len() implies !writes_entry(#[trigger] q2[k], "probs"@, proposition_text(date)) by {}
    lemma_map_read_skip((head + probability_if(!is_test, likes, jack_likes) + q1).push(probability_record(date, dates)), q2, "probs"@, proposition_text(date));
    if !is_test {
        reveal_strlit("like");
        reveal_strlit("date");
        reveal_strlit("relation");
        reveal_strlit("=");
        assert(role_text(likes[1]) == "relation"@ + "="@ + "like"@);
        assert(role_text(date[1]) == "relation"@ + "="@ + "date"@);
        assert(likes[0] == date[0]);
        lemma_texts_differ_at(likes, date, 1, 9);
        let rest = q1.push(probability_record(date, dates)) + q2;
        assert(m =~= head.push(probability_record(likes, jack_likes)) + rest);
        lemma_map_read_write(head, "probs"@, proposition_text(likes), PayloadView::Text(boolean_text(jack_likes)));
        assert forall|k: int| 0 <= k < rest.len() implies !writes_entry(#[trigger] rest[k], "probs"@, proposition_text(likes)) by {}
        lemma_map_read_skip(head.push(probability_record(likes, jack_likes)), rest, "probs"@, proposition_text(likes));
    }
}

/// Whatever a couple draws, once its records are written the hash of
/// probabilities holds the draws as observed: whether he is lonely, whether
/// she is exciting, whether she likes him.
pub proof fn lemma_prob2_observations(i: nat, d: Prob2Draw)
    ensures
        map_read(prob2_member(i, d), "probs"@, proposition_text(subject_fact("lonely"@, Domain::Jack, member_name(i % 10 == 9, Domain::Jack, i))))
            == Some(PayloadView::Text(boolean_text(d.0))),
        map_read(prob2_member(i, d), "probs"@, proposition_text(subject_fact("exciting"@, Domain::Jill, member_name(i % 10 == 9, Domain::Jill, i))))
            == Some(PayloadView::Text(boolean_text(d.1))),
        map_read(
            prob2_member(i, d),
            "probs"@,
            proposition_text(relation_fact("like"@, Domain::Jill, member_name(i % 10 == 9, Domain::Jill, i), Domain::Jack, member_name(i % 10 == 9, Domain::Jack, i))),
        ) == Some(PayloadView::Text(boolean_text(d.2))),
{
    let is_test = i % 10 == 9;
    let jack = member_name(is_test, Domain::Jack, i);
    let jill = member_name(is_test, Domain::Jill, i);
    let jack_likes = (d.0 || d.1) && d.3;
    let dates = jack_likes && d.2 && d.4;
    reveal_strlit("test");
    reveal_strlit("train");
    reveal_strlit("_");
    reveal_strlit("Jack");
    reveal_strlit("Jill");
    let x: int = (prefix_text(is_test).len() + 2) as int;
    assert(jack[x] != jill[x]);
    let f1 = subject_fact("lonely"@, Domain::Jack, jack);
    let f2 = subject_fact("exciting"@, Domain::Jill, jill);
    let f3 = relation_fact("like"@, Domain::Jill, jill, Domain::Jack, jack);
    let f4 = relation_fact("like"@, Domain::Jack, jack, Domain::Jill, jill);
    let f5 = relation_fact("date"@, Domain::Jack, jack, Domain::Jill, jill);
    let ents = seq![
        CommandView::SetAdd { key: domain_text(Domain::Jack), member: PayloadView::Text(jack) },
        CommandView::SetAdd { key: domain_text(Domain::Jill), member: PayloadView::Text(jill) },
    ];
    let s2 = stored_fact(f2, d.1);
    let tail = probability_if(!is_test, f4, jack_likes) + queue_if(!is_test, "training_queue"@, f4) + seq![
        probability_record(f5, dates),
    ] + queue_if(!is_test, "training_queue"@, f5) + queue_if(is_test, "test_queue"@, f5);
    let m = prob2_member(i, d);
    assert(m =~= ents.push(probability_record(f1, d.0)) + s2 + seq![probability_record(f3, d.2)] + tail);
    reveal_strlit("lonely");
    reveal_strlit("exciting");
    reveal_strlit("like");
    reveal_strlit("date");
    reveal_strlit("propositions");
    reveal_strlit("probs");
    assert("propositions"@ != "probs"@) by {
        assert("propositions"@.len() != "probs"@.len());
    }
    assert(map_read(m, "probs"@, proposition_text(f3)) == Some(PayloadView::Text(boolean_text(d.2)))) by {
        let f = proposition_text(f3);
        lemma_subjects_differ(f3, f4, Domain::Jill, jill, Domain::Jack, jack, x);
        lemma_subjects_differ(f3, f5, Domain::Jill, jill, Domain::Jack, jack, x);
        lemma_map_read_write(ents.push(probability_record(f1, d.0)) + s2, "probs"@, f, PayloadView::Text(boolean_text(d.2)));
        assert forall|k: int| 0 <= k < tail.len() implies !writes_entry(#[trigger] tail[k], "probs"@, f) by {}
        lemma_map_read_skip((ents.push(probability_record(f1, d.0)) + s2).push(probability_record(f3, d.2)), tail, "probs"@, f);
        assert((ents.push(probability_record(f1, d.0)) + s2).push(probability_record(f3, d.2)) =~= ents.push(probability_record(f1, d.0)) + s2 + seq![probability_record(f3, d.2)]);
    }
    assert(map_read(m, "probs"@, proposition_text(f2)) == Some(PayloadView::Text(boolean_text(d.1)))) by {
        let f = proposition_text(f2);
        lemma_subject_relations_differ(f2, f3, "exciting"@, "like"@, 0);
        lemma_subjects_differ(f2, f4, Domain::Jill, jill, Domain::Jack, jack, x);
        lemma_subjects_differ(f2, f5, Domain::Jill, jill, Domain::Jack, jack, x);
        let before = ents.push(probability_record(f1, d.0)) + seq![crate::storage::proposition_record(f2)];
        let after = seq![probability_record(f3, d.2)] + tail;
        assert(m =~= before.push(probability_record(f2, d.1)) + after);
        lemma_map_read_write(before, "probs"@, f, PayloadView::Text(boolean_text(d.1)));
        assert forall|k: int| 0 <= k < after.len() implies !writes_entry(#[trigger] after[k], "probs"@, f) by {}
        lemma_map_read_skip(before.push(probability_record(f2, d.1)), after, "probs"@, f);
    }
    assert(map_read(m, "probs"@, proposition_text(f1)) == Some(PayloadView::Text(boolean_text(d.0)))) by {
        let f = proposition_text(f1);
        lemma_subjects_differ(f1, f2, Domain::Jack, jack, Domain::Jill, jill, x);
        lemma_subjects_differ(f1, f3, Domain::Jack, jack, Domain::Jill, jill, x);
        lemma_subject_relations_differ(f1, f4, "lonely"@, "like"@, 1);
        lemma_subject_relations_differ(f1, f5, "lonely"@, "date"@, 0);
        let after = s2 + seq![probability_record(f3, d.2)] + tail;
        assert(m =~= ents.push(probability_record(f1, d.0)) + after);
        lemma_map_read_write(ents, "probs"@, f, PayloadView::Text(boolean_text(d.0)));
        assert forall|k: int| 0 <= k < after.len() implies !writes_entry(#[trigger] after[k], "probs"@, f) by {}
        lemma_map_read_skip(ents.push(probability_record(f1, d.0)), after, "probs"@, f);
    }
}

/// What the couples write, for their draws.
pub open spec fn prob2_members(draws: Seq<Prob2Draw>) -> Seq<CommandView>
    decreases draws.len(),
{
    if draws.len() == 0 {
        Seq::empty()
    } else {
        prob2_members(draws.drop_last()) + prob2_member((draws.len() - 1) as nat, draws.last())
    }
}

/// Loneliness leads to liking, being exciting to being liked, and liking
/// each other to dating.
pub open spec fn prob2_implications() -> Seq<ImplicationView> {
    seq![
        ImplicationView {
            premise: seq![subject_pattern("lonely"@, Domain::Jack)],
            conclusion: relation_pattern("like"@, Domain::Jack, Domain::Jill),
            role_maps: seq![seq![("subject"@, "subject"@)]],
        },
        ImplicationView {
            premise: seq![subject_pattern("exciting"@, Domain::Jill)],
            conclusion: relation_pattern("like"@, Domain::Jack, Domain::Jill),
            role_maps: seq![seq![("object"@, "subject"@)]],
        },
        ImplicationView {
            premise: seq![
                relation_pattern("like"@, Domain::Jill, Domain::Jack),
                relation_pattern("like"@, Domain::Jack, Domain::Jill),
            ],
            conclusion: relation_pattern("date"@, Domain::Jack, Domain::Jill),
            role_maps: seq![
                seq![("subject"@, "object"@), ("object"@, "subject"@)],
                seq![("subject"@, "subject"@), ("object"@, "object"@)],
            ],
        },
    ]
}

/// What the scenario writes, for the draws of its couples.
pub open spec fn prob2_commands(draws: Seq<Prob2Draw>) -> Seq<CommandView> {
    prob2_members(draws) + raw_implications_commands(prob2_implications())
}

fn probability_if_command(storage: &Storage, cond: bool, p: &Proposition, b: bool) -> (r: Option<StoreCommand>)
    ensures
        optional_views(r) == probability_if(cond, p@, b),
{
    if cond {
        Some(storage.store_proposition_probability(p, b))
    } else {
        None
    }
}

fn prob2_member_commands(storage: &Storage, i: u32, d: Prob2Draw) -> (r: Vec<StoreCommand>)
    ensures
        command_views(r@) == prob2_member(i as nat, d),
{
    let is_test = i % 10 == 9;
    let is_training = !is_test;
    let (lonely, exciting, jill_likes, likes_follows, dates_follows) = d;
    let jack_likes = (lonely || exciting) && likes_follows;
    let dates = jack_likes && jill_likes && dates_follows;
    let jack = Entity { domain: Domain::Jack, name: member_name_string(is_test, Domain::Jack, i) };
    let jill = Entity { domain: Domain::Jill, name: member_name_string(is_test, Domain::Jill, i) };
    let mut out: Vec<StoreCommand> = Vec::new();
    out.push(storage.store_entity(&jack));
    out.push(storage.store_entity(&jill));
    let p1 = subject_proposition("lonely", Domain::Jack, jack.name.as_str());
    out.push(storage.store_proposition_probability(&p1, lonely));
    let ghost first = command_views(out@);
    let p2 = subject_proposition("exciting", Domain::Jill, jill.name.as_str());
    append_commands(&mut out, storage.store_proposition(&p2, exciting));
    let p3 = relation_proposition("like", Domain::Jill, jill.name.as_str(), Domain::Jack, jack.name.as_str());
    let ghost second = command_views(out@);
    push_command(&mut out, storage.store_proposition_probability(&p3, jill_likes));
    let ghost third = command_views(out@);
    let p4 = relation_proposition("like", Domain::Jack, jack.name.as_str(), Domain::Jill, jill.name.as_str());
    push_optional(&mut out, probability_if_command(storage, is_training, &p4, jack_likes));
    push_optional(&mut out, storage.maybe_add_to_training(is_training, &p4));
    let p5 = relation_proposition("date", Domain::Jack, jack.name.as_str(), Domain::Jill, jill.name.as_str());
    let ghost fourth = command_views(out@);
    push_command(&mut out, storage.store_proposition_probability(&p5, dates));
    let ghost fifth = command_views(out@);
    push_optional(&mut out, storage.maybe_add_to_training(is_training, &p5));
    push_optional(&mut out, storage.maybe_add_to_test(is_test, &p5));
    proof {
        assert(second == first + stored_fact(p2@, exciting));
        assert(third =~= second + seq![probability_record(p3@, jill_likes)]);
        assert(fifth =~= fourth + seq![probability_record(p5@, dates)]);
        assert(command_views(out@) =~= prob2_member(i as nat, d));
    }
    out
}

fn prob2_implication_list() -> (r: Vec<Implication>)
    ensures
        implication_views(r@) == prob2_implications(),
{
    proof {
        reveal_strlit("subject");
        reveal_strlit("object");
        assert("subject"@ != "object"@) by {
            assert("subject"@[0] != "object"@[0]);
        }
    }
    let ghost v = prob2_implications();
    let mut p1: Vec<Proposition> = Vec::new();
    p1.push(subject_predicate("lonely", Domain::Jack));
    let mut m1: Vec<RoleMap> = Vec::new();
    m1.push(role_map_one("subject", "subject"));
    let mut p2: Vec<Proposition> = Vec::new();
    p2.push(subject_predicate("exciting", Domain::Jill));
    let mut m2: Vec<RoleMap> = Vec::new();
    m2.push(role_map_one("object", "subject"));
    let mut p3: Vec<Proposition> = Vec::new();
    p3.push(relation_predicate("like", Domain::Jill, Domain::Jack));
    p3.push(relation_predicate("like", Domain::Jack, Domain::Jill));
    let mut m3: Vec<RoleMap> = Vec::new();
    m3.push(role_map_two("subject", "object", "object", "subject"));
    m3.push(role_map_two("subject", "subject", "object", "object"));
    proof {
        assert(proposition_views(p1@) =~= v[0].premise);
        assert(role_map_views(m1@) =~= v[0].role_maps);
        assert(proposition_views(p2@) =~= v[1].premise);
        assert(role_map_views(m2@) =~= v[1].role_maps);
        assert(proposition_views(p3@) =~= v[2].premise);
        assert(role_map_views(m3@) =~= v[2].role_maps);
    }
    let mut r: Vec<Implication> = Vec::new();
    r.push(crate::creators::implication(conjunction(p1), relation_predicate("like", Domain::Jack, Domain::Jill), m1));
    r.push(crate::creators::implication(conjunction(p2), relation_predicate("like", Domain::Jack, Domain::Jill), m2));
    r.push(crate::creators::implication(conjunction(p3), relation_predicate("date", Domain::Jack, Domain::Jill), m3));
    proof {
        assert(implication_views(r@) =~= v);
    }
    r
}

impl DatingProb2 {
    /// The commands of the scenario for the given draws, one per couple.
    pub fn setup_with(&self, storage: &Storage, draws: &Vec<Prob2Draw>) -> (r: Vec<StoreCommand>)
        requires
            draws@.len() <= u32::MAX,
        ensures
            command_views(r@) == prob2_commands(draws@),
    {
        let mut out: Vec<StoreCommand> = Vec::new();
        let mut i: usize = 0;
        while i < draws.len()
            invariant
                0 <= i <= draws.len(),
                draws@.len() <= u32::MAX,
                command_views(out@) == prob2_members(draws@.take(i as int)),
            decreases draws.len() - i,
        {
            append_commands(&mut out, prob2_member_commands(storage, i as u32, draws[i]));
            proof {
                assert(draws@.take(i + 1).drop_last() =~= draws@.take(i as int));
            }
            i += 1;
        }
        proof {
            assert(draws@.take(i as int) =~= draws@);
        }
        let implications = prob2_implication_list();
        append_commands(&mut out, store_implications(storage, &implications));
        out
    }

    /// Draws, for each couple, three fair coins, then whether his liking
    /// follows (eight in ten, and never without loneliness or excitement) and
    /// whether their dating follows (seven in ten, and never without mutual
    /// liking), and writes the scenario for the draws.
    pub fn setup_scenario(&self, storage: &Storage, entities_per_domain: i32) -> (r: Vec<StoreCommand>)
        ensures
            exists|draws: Seq<Prob2Draw>|
                draws.len() == member_count(entities_per_domain) && command_views(r@)
                    == #[trigger] prob2_commands(draws),
    {
        let mut draws: Vec<Prob2Draw> = Vec::new();
        let mut i: i32 = 0;
        while i < entities_per_domain
            invariant
                0 <= i,
                i <= entities_per_domain || i == 0,
                draws@.len() == i,
            decreases entities_per_domain - i,
        {
            let lonely = weighted_cointoss(1, 2);
            let exciting = weighted_cointoss(1, 2);
            let jill_likes = weighted_cointoss(1, 2);
            let likes_follows = weighted_cointoss(if lonely || exciting { 8 } else { 0 }, 10);
            let jack_likes = (lonely || exciting) && likes_follows;
            let dates_follows = weighted_cointoss(if jack_likes && jill_likes { 7 } else { 0 }, 10);
            draws.push((lonely, exciting, jill_likes, likes_follows, dates_follows));
            i += 1;
        }
        let r = self.setup_with(storage, &draws);
        assert(draws@.len() == member_count(entities_per_domain));
        r
    }
}

} // verus!
