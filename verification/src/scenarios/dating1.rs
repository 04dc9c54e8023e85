//! The first dating world, kept in the store without namespaces: men and
//! women, whether he is lonely, whether she is exciting, who likes whom and
//! who dates whom, each proposition written as subject, relation and object.

use vstd::prelude::*;
use crate::creators::{conjunction, constant, relation_role, role, variable};
use crate::objects::{
    domain_text, proposition_views, role_map_views, role_views, ArgumentView, Domain, Entity,
    FilledRole, Implication, ImplicationView, Proposition, PropositionView, RoleMap, RoleView,
};
use crate::scenarios::{member_name, member_name_string, role_map_one, role_map_two, weighted_cointoss};
use crate::search::implication_views;
use crate::storage::{probability_record, proposition_record, raw_implication_commands, Storage};
use crate::store::{
    append_commands, command_views, lemma_map_read_skip, lemma_map_read_write, map_read, push_command,
    writes_entry, CommandView, PayloadView, StoreCommand,
};
use crate::proposition_db::boolean_text;
use crate::objects::{lemma_text_differs_in_role, lemma_texts_differ_at, proposition_text, role_text};
use crate::text::{decimal_string, decimal_text};

verus! {

/// The `subject` role filled by the entity `name` of `d`.
pub open spec fn subject_entity(d: Domain, name: Seq<char>) -> RoleView {
    RoleView { name: "subject"@, arg: ArgumentView::Constant(d, name) }
}

/// The `object` role filled by the entity `name` of `d`.
pub open spec fn object_entity(d: Domain, name: Seq<char>) -> RoleView {
    RoleView { name: "object"@, arg: ArgumentView::Constant(d, name) }
}

/// The `subject` role filled by a variable of `d`.
pub open spec fn subject_variable(d: Domain) -> RoleView {
    RoleView { name: "subject"@, arg: ArgumentView::Variable(d) }
}

/// The `object` role filled by a variable of `d`.
pub open spec fn object_variable(d: Domain) -> RoleView {
    RoleView { name: "object"@, arg: ArgumentView::Variable(d) }
}

/// `subject: name, relation: f`.
pub open spec fn subject_fact(f: Seq<char>, d: Domain, name: Seq<char>) -> PropositionView {
    seq![subject_entity(d, name), relation_role(f)]
}

/// `subject: n1, relation: f, object: n2`.
pub open spec fn relation_fact(f: Seq<char>, d1: Domain, n1: Seq<char>, d2: Domain, n2: Seq<char>) -> PropositionView {
    seq![subject_entity(d1, n1), relation_role(f), object_entity(d2, n2)]
}

/// `subject: ?d, relation: f`.
pub open spec fn subject_pattern(f: Seq<char>, d: Domain) -> PropositionView {
    seq![subject_variable(d), relation_role(f)]
}

/// `subject: ?d1, relation: f, object: ?d2`.
pub open spec fn relation_pattern(f: Seq<char>, d1: Domain, d2: Domain) -> PropositionView {
    seq![subject_variable(d1), relation_role(f), object_variable(d2)]
}

/// Records the proposition and its observation.
pub open spec fn stored_fact(p: PropositionView, b: bool) -> Seq<CommandView> {
    seq![proposition_record(p), probability_record(p, b)]
}

/// `subject: name, relation: f`.
pub fn subject_proposition(f: &str, d: Domain, name: &str) -> (p: Proposition)
    ensures
        p@ == subject_fact(f@, d, name@),
{
    let mut roles: Vec<FilledRole> = Vec::new();
    roles.push(role(String::from_str("subject"), constant(d, String::from_str(name))));
    roles.push(role(String::from_str("relation"), constant(Domain::Verb, String::from_str(f))));
    proof {
        assert(role_views(roles@) =~= subject_fact(f@, d, name@));
    }
    Proposition::new(roles)
}

/// `subject: n1, relation: f, object: n2`.
pub fn relation_proposition(f: &str, d1: Domain, n1: &str, d2: Domain, n2: &str) -> (p: Proposition)
    ensures
        p@ == relation_fact(f@, d1, n1@, d2, n2@),
{
    let mut roles: Vec<FilledRole> = Vec::new();
    roles.push(role(String::from_str("subject"), constant(d1, String::from_str(n1))));
    roles.push(role(String::from_str("relation"), constant(Domain::Verb, String::from_str(f))));
    roles.push(role(String::from_str("object"), constant(d2, String::from_str(n2))));
    proof {
        assert(role_views(roles@) =~= relation_fact(f@, d1, n1@, d2, n2@));
    }
    Proposition::new(roles)
}

/// `subject: ?d, relation: f`.
pub fn subject_predicate(f: &str, d: Domain) -> (p: Proposition)
    ensures
        p@ == subject_pattern(f@, d),
{
    let mut roles: Vec<FilledRole> = Vec::new();
    roles.push(role(String::from_str("subject"), variable(d)));
    roles.push(role(String::from_str("relation"), constant(Domain::Verb, String::from_str(f))));
    proof {
        assert(role_views(roles@) =~= subject_pattern(f@, d));
    }
    Proposition::new(roles)
}

/// `subject: ?d1, relation: f, object: ?d2`.
pub fn relation_predicate(f: &str, d1: Domain, d2: Domain) -> (p: Proposition)
    ensures
        p@ == relation_pattern(f@, d1, d2),
{
    let mut roles: Vec<FilledRole> = Vec::new();
    roles.push(role(String::from_str("subject"), variable(d1)));
    roles.push(role(String::from_str("relation"), constant(Domain::Verb, String::from_str(f))));
    roles.push(role(String::from_str("object"), variable(d2)));
    proof {
        assert(role_views(roles@) =~= relation_pattern(f@, d1, d2));
    }
    Proposition::new(roles)
}

/// The draws of one couple: whether he is lonely, whether she is exciting,
/// whether she likes him; each a fair coin.
pub type CoupleDraw = (bool, bool, bool);

/// The name of the `i`-th entity of `d` in training: the domain and `i`.
pub open spec fn training_name(d: Domain, i: nat) -> Seq<char> {
    domain_text(d) + decimal_text(i)
}

/// Adds the `i`-th training entities of `d`, for `i` below `n`.
pub open spec fn training_entities(d: Domain, n: nat) -> Seq<CommandView>
    decreases n,
{
    if n == 0 {
        Seq::empty()
    } else {
        training_entities(d, (n - 1) as nat).push(
            CommandView::SetAdd {
                key: domain_text(d),
                member: PayloadView::Text(training_name(d, (n - 1) as nat)),
            },
        )
    }
}

/// What the first part of training setup writes: empty the database, then
/// store the men and the women.
pub open spec fn setup_train_entities_commands(n: nat) -> Seq<CommandView> {
    seq![CommandView::FlushDb] + training_entities(Domain::Jack, n) + training_entities(
        Domain::Jill,
        n,
    )
}

/// What the couple of `jack` and `jill` writes for its draws: he likes her
/// when he is lonely or she is exciting, he dates her when both like each
/// other.
pub open spec fn couple_facts(jack: (Domain, Seq<char>), jill: (Domain, Seq<char>), d: CoupleDraw) -> Seq<CommandView> {
    let (lonely, exciting, jill_likes) = d;
    let jack_likes = lonely || exciting;
    stored_fact(subject_fact("lonely"@, jack.0, jack.1), lonely) + stored_fact(
        subject_fact("exciting"@, jill.0, jill.1),
        exciting,
    ) + stored_fact(relation_fact("like"@, jill.0, jill.1, jack.0, jack.1), jill_likes)
        + stored_fact(relation_fact("like"@, jack.0, jack.1, jill.0, jill.1), jack_likes)
        + stored_fact(
        relation_fact("date"@, jack.0, jack.1, jill.0, jill.1),
        jack_likes && jill_likes,
    )
}

/// The view of an entity as its domain and name.
pub open spec fn entity_pair(e: Entity) -> (Domain, Seq<char>) {
    (e.domain, e.name@)
}

/// Whatever a couple draws (he lonely, she exciting, she likes him), once
/// its records are written the hash of probabilities says that he likes her
/// exactly when he is lonely or she is exciting, and that he dates her
/// exactly when, besides, she likes him.
pub proof fn lemma_couple_probabilities(jack: (Domain, Seq<char>), jill: (Domain, Seq<char>), d: CoupleDraw)
    ensures
        map_read(
            couple_facts(jack, jill, d),
            "probs"@,
            proposition_text(relation_fact("like"@, jack.0, jack.1, jill.0, jill.1)),
        ) == Some(PayloadView::Text(boolean_text(d.0 || d.1))),
        map_read(
            couple_facts(jack, jill, d),
            "probs"@,
            proposition_text(relation_fact("date"@, jack.0, jack.1, jill.0, jill.1)),
        ) == Some(PayloadView::Text(boolean_text((d.0 || d.1) && d.2))),
{
    let (lonely, exciting, jill_likes) = d;
    let likes = relation_fact("like"@, jack.0, jack.1, jill.0, jill.1);
    let dates = relation_fact("date"@, jack.0, jack.1, jill.0, jill.1);
    let head = stored_fact(subject_fact("lonely"@, jack.0, jack.1), lonely) + stored_fact(
        subject_fact("exciting"@, jill.0, jill.1),
        exciting,
    ) + stored_fact(relation_fact("like"@, jill.0, jill.1, jack.0, jack.1), jill_likes);
    let like_written = head.push(proposition_record(likes)).push(probability_record(likes, lonely || exciting));
    let date_written = like_written.push(proposition_record(dates)).push(
        probability_record(dates, (lonely || exciting) && jill_likes),
    );
    let after_like = stored_fact(dates, (lonely || exciting) && jill_likes);
    assert(couple_facts(jack, jill, d) =~= date_written);
    assert(couple_facts(jack, jill, d) =~= like_written + after_like);
    lemma_map_read_write(
        like_written.push(proposition_record(dates)),
        "probs"@,
        proposition_text(dates),
        PayloadView::Text(boolean_text((lonely || exciting) && jill_likes)),
    );
    lemma_map_read_write(
        head.push(proposition_record(likes)),
        "probs"@,
        proposition_text(likes),
        PayloadView::Text(boolean_text(lonely || exciting)),
    );
    reveal_strlit("like");
    reveal_strlit("date");
    reveal_strlit("relation");
    reveal_strlit("=");
    reveal_strlit("propositions");
    reveal_strlit("probs");
    assert(role_text(likes[1]) == "relation"@ + "="@ + "like"@);
    assert(role_text(dates[1]) == "relation"@ + "="@ + "date"@);
    assert(role_text(likes[1])[9] != role_text(dates[1])[9]);
    assert forall|k: int| 0 <= k < likes.len() && k != 1 implies likes[k] == dates[k] by {}
    lemma_text_differs_in_role(likes, dates, 1);
    assert("propositions"@ != "probs"@) by {
        assert("propositions"@.len() != "probs"@.len());
    }
    assert forall|k: int| 0 <= k < after_like.len() implies !writes_entry(#[trigger] after_like[k], "probs"@, proposition_text(likes)) by {}
    lemma_map_read_skip(like_written, after_like, "probs"@, proposition_text(likes));
}

/// Facts whose subjects' names differ in letter `x` have different texts.
pub proof fn lemma_subjects_differ(p: PropositionView, q: PropositionView, d1: Domain, n1: Seq<char>, d2: Domain, n2: Seq<char>, x: int)
    requires
        p.len() > 0,
        q.len() > 0,
        p[0] == subject_entity(d1, n1),
        q[0] == subject_entity(d2, n2),
        0 <= x < n1.len(),
        x < n2.len(),
        n1[x] != n2[x],
    ensures
        proposition_text(p) != proposition_text(q),
{
    reveal_strlit("subject");
    reveal_strlit("=");
    assert(role_text(p[0]) == "subject"@ + "="@ + n1);
    assert(role_text(q[0]) == "subject"@ + "="@ + n2);
    assert(role_text(p[0])[8 + x] == n1[x]);
    assert(role_text(q[0])[8 + x] == n2[x]);
    lemma_texts_differ_at(p, q, 0, 8 + x);
}

/// Facts with the same subject whose relations differ in letter `x` have
/// different texts.
pub proof fn lemma_subject_relations_differ(p: PropositionView, q: PropositionView, f: Seq<char>, g: Seq<char>, x: int)
    requires
        p.len() > 1,
        q.len() > 1,
        p[0] == q[0],
        p[1] == relation_role(f),
        q[1] == relation_role(g),
        0 <= x < f.len(),
        x < g.len(),
        f[x] != g[x],
    ensures
        proposition_text(p) != proposition_text(q),
{
    reveal_strlit("relation");
    reveal_strlit("=");
    assert(role_text(p[1]) == "relation"@ + "="@ + f);
    assert(role_text(q[1]) == "relation"@ + "="@ + g);
    assert(role_text(p[1])[9 + x] == f[x]);
    assert(role_text(q[1])[9 + x] == g[x]);
    lemma_texts_differ_at(p, q, 1, 9 + x);
}

/// Whatever a couple draws, once its records are written the hash of
/// probabilities holds the draws as observed: whether he is lonely, whether
/// she is exciting, whether she likes him. This needs the two names to
/// differ within their common length, else their facts share texts.
pub proof fn lemma_couple_observations(jack: (Domain, Seq<char>), jill: (Domain, Seq<char>), d: CoupleDraw)
    requires
        exists|x: int| 0 <= x < jack.1.len() && x < jill.1.len() && jack.1[x] != jill.1[x],
    ensures
        map_read(couple_facts(jack, jill, d), "probs"@, proposition_text(subject_fact("lonely"@, jack.0, jack.1)))
            == Some(PayloadView::Text(boolean_text(d.0))),
        map_read(couple_facts(jack, jill, d), "probs"@, proposition_text(subject_fact("exciting"@, jill.0, jill.1)))
            == Some(PayloadView::Text(boolean_text(d.1))),
        map_read(
            couple_facts(jack, jill, d),
            "probs"@,
            proposition_text(relation_fact("like"@, jill.0, jill.1, jack.0, jack.1)),
        ) == Some(PayloadView::Text(boolean_text(d.2))),
{
    let x = choose|x: int| 0 <= x < jack.1.len() && x < jill.1.len() && jack.1[x] != jill.1[x];
    let (lonely, exciting, jill_likes) = d;
    let jack_likes = lonely || exciting;
    let f1 = subject_fact("lonely"@, jack.0, jack.1);
    let f2 = subject_fact("exciting"@, jill.0, jill.1);
    let f3 = relation_fact("like"@, jill.0, jill.1, jack.0, jack.1);
    let f4 = relation_fact("like"@, jack.0, jack.1, jill.0, jill.1);
    let f5 = relation_fact("date"@, jack.0, jack.1, jill.0, jill.1);
    let s1 = stored_fact(f1, lonely);
    let s2 = stored_fact(f2, exciting);
    let s3 = stored_fact(f3, jill_likes);
    let s4 = stored_fact(f4, jack_likes);
    let s5 = stored_fact(f5, jack_likes && jill_likes);
    let m = couple_facts(jack, jill, d);
    assert(m == s1 + s2 + s3 + s4 + s5);
    reveal_strlit("lonely");
    reveal_strlit("exciting");
    reveal_strlit("like");
    reveal_strlit("date");
    reveal_strlit("propositions");
    reveal_strlit("probs");
    assert("propositions"@ != "probs"@) by {
        assert("propositions"@.len() != "probs"@.len());
    }
    lemma_subjects_differ(f1, f2, jack.0, jack.1, jill.0, jill.1, x);
    lemma_subjects_differ(f1, f3, jack.0, jack.1, jill.0, jill.1, x);
    lemma_subject_relations_differ(f1, f4, "lonely"@, "like"@, 1);
    lemma_subject_relations_differ(f1, f5, "lonely"@, "date"@, 0);
    lemma_subjects_differ(f2, f4, jill.0, jill.1, jack.0, jack.1, x);
    lemma_subjects_differ(f2, f5, jill.0, jill.1, jack.0, jack.1, x);
    lemma_subjects_differ(f3, f4, jill.0, jill.1, jack.0, jack.1, x);
    lemma_subjects_differ(f3, f5, jill.0, jill.1, jack.0, jack.1, x);
    assert(map_read(m, "probs"@, proposition_text(f3)) == Some(PayloadView::Text(boolean_text(jill_likes)))) by {
        let f = proposition_text(f3);
        assert(s1 + s2 + s3 =~= (s1 + s2 + seq![proposition_record(f3)]).push(probability_record(f3, jill_likes)));
        lemma_map_read_write(s1 + s2 + seq![proposition_record(f3)], "probs"@, f, PayloadView::Text(boolean_text(jill_likes)));
        assert forall|k: int| 0 <= k < s4.len() implies !writes_entry(#[trigger] s4[k], "probs"@, f) by {}
        assert forall|k: int| 0 <= k < s5.len() implies !writes_entry(#[trigger] s5[k], "probs"@, f) by {}
        lemma_map_read_skip(s1 + s2 + s3, s4, "probs"@, f);
        lemma_map_read_skip(s1 + s2 + s3 + s4, s5, "probs"@, f);
    }
    assert(map_read(m, "probs"@, proposition_text(f2)) == Some(PayloadView::Text(boolean_text(exciting)))) by {
        let f = proposition_text(f2);
        lemma_subject_relations_differ(f2, f3, "exciting"@, "like"@, 0);
        assert(s1 + s2 =~= (s1 + seq![proposition_record(f2)]).push(probability_record(f2, exciting)));
        lemma_map_read_write(s1 + seq![proposition_record(f2)], "probs"@, f, PayloadView::Text(boolean_text(exciting)));
        assert forall|k: int| 0 <= k < s3.len() implies !writes_entry(#[trigger] s3[k], "probs"@, f) by {}
        assert forall|k: int| 0 <= k < s4.len() implies !writes_entry(#[trigger] s4[k], "probs"@, f) by {}
        assert forall|k: int| 0 <= k < s5.len() implies !writes_entry(#[trigger] s5[k], "probs"@, f) by {}
        lemma_map_read_skip(s1 + s2, s3, "probs"@, f);
        lemma_map_read_skip(s1 + s2 + s3, s4, "probs"@, f);
        lemma_map_read_skip(s1 + s2 + s3 + s4, s5, "probs"@, f);
    }
    assert(map_read(m, "probs"@, proposition_text(f1)) == Some(PayloadView::Text(boolean_text(lonely)))) by {
        let f = proposition_text(f1);
        let e: Seq<CommandView> = Seq::empty();
        assert(s1 =~= (e + seq![proposition_record(f1)]).push(probability_record(f1, lonely)));
        lemma_map_read_write(e + seq![proposition_record(f1)], "probs"@, f, PayloadView::Text(boolean_text(lonely)));
        assert forall|k: int| 0 <= k < s2.len() implies !writes_entry(#[trigger] s2[k], "probs"@, f) by {}
        assert forall|k: int| 0 <= k < s3.len() implies !writes_entry(#[trigger] s3[k], "probs"@, f) by {}
        assert forall|k: int| 0 <= k < s4.len() implies !writes_entry(#[trigger] s4[k], "probs"@, f) by {}
        assert forall|k: int| 0 <= k < s5.len() implies !writes_entry(#[trigger] s5[k], "probs"@, f) by {}
        lemma_map_read_skip(s1, s2, "probs"@, f);
        lemma_map_read_skip(s1 + s2, s3, "probs"@, f);
        lemma_map_read_skip(s1 + s2 + s3, s4, "probs"@, f);
        lemma_map_read_skip(s1 + s2 + s3 + s4, s5, "probs"@, f);
    }
}

/// What the first `n` couples write.
pub open spec fn couples_facts(jacks: Seq<Entity>, jills: Seq<Entity>, draws: Seq<CoupleDraw>, n: nat) -> Seq<CommandView>
    decreases n,
{
    if n == 0 {
        Seq::empty()
    } else {
        couples_facts(jacks, jills, draws, (n - 1) as nat) + couple_facts(
            entity_pair(jacks[n - 1]),
            entity_pair(jills[n - 1]),
            draws[n - 1],
        )
    }
}

/// Loneliness leads to liking, being exciting to being liked, and liking
/// either way to dating.
pub open spec fn dating1_implications() -> Seq<ImplicationView> {
    seq![
        ImplicationView {
            premise: seq![subject_pattern("lonely"@, Domain::Jack)],
            conclusion: relation_pattern("like"@, Domain::Jack, Domain::Jill),
            role_maps: seq![seq![("subject"@, "subject"@)]],
        },
        ImplicationView {
            premise: seq![subject_pattern("exciting"@, Domain::Jill)],
            conclusion: relation_pattern("like"@, Domain::Jack, Domain::Jill),
            role_maps: seq![seq![("object"@, "subject"@)]],
        },
        ImplicationView {
            premise: seq![relation_pattern("like"@, Domain::Jill, Domain::Jack)],
            conclusion: relation_pattern("date"@, Domain::Jack, Domain::Jill),
            role_maps: seq![seq![("subject"@, "object"@), ("object"@, "subject"@)]],
        },
        ImplicationView {
            premise: seq![relation_pattern("like"@, Domain::Jack, Domain::Jill)],
            conclusion: relation_pattern("date"@, Domain::Jack, Domain::Jill),
            role_maps: seq![seq![("subject"@, "subject"@), ("object"@, "object"@)]],
        },
    ]
}

/// What storing the implications `s` writes, in order.
pub open spec fn raw_implications_commands(s: Seq<ImplicationView>) -> Seq<CommandView>
    decreases s.len(),
{
    if s.len() == 0 {
        Seq::empty()
    } else {
        raw_implications_commands(s.drop_last()) + raw_implication_commands(s.last())
    }
}

/// What the second part of training setup writes, for the men and women read
/// back and the draws of each couple.
pub open spec fn setup_train_commands(jacks: Seq<Entity>, jills: Seq<Entity>, draws: Seq<CoupleDraw>) -> Seq<CommandView> {
    couples_facts(jacks, jills, draws, jacks.len()) + raw_implications_commands(dating1_implications())
}

fn store_fact(storage: &Storage, out: &mut Vec<StoreCommand>, p: &Proposition, b: bool)
    ensures
        command_views(final(out)@) == command_views(old(out)@) + stored_fact(p@, b),
{
    append_commands(out, storage.store_proposition(p, b));
}

fn couple_commands(storage: &Storage, jack: &Entity, jill: &Entity, d: CoupleDraw) -> (r: Vec<StoreCommand>)
    ensures
        command_views(r@) == couple_facts(entity_pair(*jack), entity_pair(*jill), d),
{
    let (lonely, exciting, jill_likes) = d;
    let jack_likes = lonely || exciting;
    let mut out: Vec<StoreCommand> = Vec::new();
    let p1 = subject_proposition("lonely", jack.domain, jack.name.as_str());
    store_fact(storage, &mut out, &p1, lonely);
    let p2 = subject_proposition("exciting", jill.domain, jill.name.as_str());
    store_fact(storage, &mut out, &p2, exciting);
    let p3 = relation_proposition("like", jill.domain, jill.name.as_str(), jack.domain, jack.name.as_str());
    store_fact(storage, &mut out, &p3, jill_likes);
    let p4 = relation_proposition("like", jack.domain, jack.name.as_str(), jill.domain, jill.name.as_str());
    store_fact(storage, &mut out, &p4, jack_likes);
    let p5 = relation_proposition("date", jack.domain, jack.name.as_str(), jill.domain, jill.name.as_str());
    store_fact(storage, &mut out, &p5, jack_likes && jill_likes);
    proof {
        let e: Seq<CommandView> = Seq::empty();
        assert(e + stored_fact(p1@, lonely) =~= stored_fact(p1@, lonely));
    }
    out
}

fn dating1_implication_list() -> (r: Vec<Implication>)
    ensures
        implication_views(r@) == dating1_implications(),
{
    proof {
        reveal_strlit("subject");
        reveal_strlit("object");
        assert("subject"@ != "object"@) by {
            assert("subject"@[0] != "object"@[0]);
        }
    }
    let ghost v = dating1_implications();
    let mut p1: Vec<Proposition> = Vec::new();
    p1.push(subject_predicate("lonely", Domain::Jack));
    let mut m1: Vec<RoleMap> = Vec::new();
    m1.push(role_map_one("subject", "subject"));
    let mut p2: Vec<Proposition> = Vec::new();
    p2.push(subject_predicate("exciting", Domain::Jill));
    let mut m2: Vec<RoleMap> = Vec::new();
    m2.push(role_map_one("object", "subject"));
    let mut p3: Vec<Proposition> = Vec::new();
    p3.push(relation_predicate("like", Domain::Jill, Domain::Jack));
    let mut m3: Vec<RoleMap> = Vec::new();
    m3.push(role_map_two("subject", "object", "object", "subject"));
    let mut p4: Vec<Proposition> = Vec::new();
    p4.push(relation_predicate("like", Domain::Jack, Domain::Jill));
    let mut m4: Vec<RoleMap> = Vec::new();
    m4.push(role_map_two("subject", "subject", "object", "object"));
    proof {
        assert(proposition_views(p1@) =~= v[0].premise);
        assert(role_map_views(m1@) =~= v[0].role_maps);
        assert(proposition_views(p2@) =~= v[1].premise);
        assert(role_map_views(m2@) =~= v[1].role_maps);
        assert(proposition_views(p3@) =~= v[2].premise);
        assert(role_map_views(m3@) =~= v[2].role_maps);
        assert(proposition_views(p4@) =~= v[3].premise);
        assert(role_map_views(m4@) =~= v[3].role_maps);
    }
    let mut r: Vec<Implication> = Vec::new();
    r.push(crate::creators::implication(conjunction(p1), relation_predicate("like", Domain::Jack, Domain::Jill), m1));
    r.push(crate::creators::implication(conjunction(p2), relation_predicate("like", Domain::Jack, Domain::Jill), m2));
    r.push(crate::creators::implication(conjunction(p3), relation_predicate("date", Domain::Jack, Domain::Jill), m3));
    r.push(crate::creators::implication(conjunction(p4), relation_predicate("date", Domain::Jack, Domain::Jill), m4));
    proof {
        assert(implication_views(r@) =~= v);
    }
    r
}

/// Stores the implications in order.
pub fn store_implications(storage: &Storage, implications: &Vec<Implication>) -> (r: Vec<StoreCommand>)
    ensures
        command_views(r@) == raw_implications_commands(implication_views(implications@)),
{
    let ghost iv = implication_views(implications@);
    let mut r: Vec<StoreCommand> = Vec::new();
    let mut i: usize = 0;
    while i < implications.len()
        invariant
            0 <= i <= implications.len(),
            iv == implication_views(implications@),
            command_views(r@) == raw_implications_commands(iv.take(i as int)),
        decreases implications.len() - i,
    {
        append_commands(&mut r, storage.store_implication(&implications[i]));
        proof {
            assert(iv.take(i + 1).drop_last() =~= iv.take(i as int));
        }
        i += 1;
    }
    proof {
        assert(iv.take(i as int) =~= iv);
    }
    r
}

pub(crate) fn push_training_entities(storage: &Storage, out: &mut Vec<StoreCommand>, d: Domain, n: u32)
    ensures
        command_views(final(out)@) == command_views(old(out)@) + training_entities(d, n as nat),
{
    let ghost start = command_views(out@);
    let mut i: u32 = 0;
    while i < n
        invariant
            i <= n,
            command_views(out@) == start + training_entities(d, i as nat),
        decreases n - i,
    {
        let mut name = d.to_string();
        let k = decimal_string(i);
        name.append(k.as_str());
        let entity = Entity { domain: d, name };
        push_command(out, storage.store_entity(&entity));
        proof {
            assert(start + training_entities(d, (i + 1) as nat) =~= (start + training_entities(
                d,
                i as nat,
            )).push(
                CommandView::SetAdd {
                    key: domain_text(d),
                    member: PayloadView::Text(training_name(d, i as nat)),
                },
            ));
        }
        i += 1;
    }
}

/// The first part of training setup: empties the database and stores
/// `entities_per_domain` men and as many women; the men and women are then
/// read back for `setup_train`.
pub fn setup_train_entities(storage: &Storage, entities_per_domain: i32) -> (r: Vec<StoreCommand>)
    ensures
        command_views(r@) == setup_train_entities_commands(
            crate::scenarios::member_count(entities_per_domain),
        ),
{
    let n: u32 = if entities_per_domain <= 0 {
        0
    } else {
        entities_per_domain as u32
    };
    let mut out: Vec<StoreCommand> = Vec::new();
    push_command(&mut out, storage.drop_all_dbs());
    assert(command_views(out@) =~= seq![CommandView::FlushDb]);
    push_training_entities(storage, &mut out, Domain::Jack, n);
    push_training_entities(storage, &mut out, Domain::Jill, n);
    out
}

/// The second part of training setup for the given draws: the facts of each
/// man with the woman at his index, then the implications.
pub fn setup_train_with(storage: &Storage, jacks: &Vec<Entity>, jills: &Vec<Entity>, draws: &Vec<CoupleDraw>) -> (r: Vec<StoreCommand>)
    requires
        jacks@.len() <= jills@.len(),
        draws@.len() == jacks@.len(),
    ensures
        command_views(r@) == setup_train_commands(jacks@, jills@, draws@),
{
    let mut out: Vec<StoreCommand> = Vec::new();
    let mut i: usize = 0;
    while i < jacks.len()
        invariant
            0 <= i <= jacks.len(),
            jacks@.len() <= jills@.len(),
            draws@.len() == jacks@.len(),
            command_views(out@) == couples_facts(jacks@, jills@, draws@, i as nat),
        decreases jacks.len() - i,
    {
        append_commands(&mut out, couple_commands(storage, &jacks[i], &jills[i], draws[i]));
        i += 1;
    }
    let implications = dating1_implication_list();
    append_commands(&mut out, store_implications(storage, &implications));
    out
}

/// The second part of training setup: draws, for each man and the woman at
/// his index, three fair coins, and writes their facts and the implications.
pub fn setup_train(storage: &Storage, jacks: &Vec<Entity>, jills: &Vec<Entity>) -> (r: Vec<StoreCommand>)
    requires
        jacks@.len() <= jills@.len(),
    ensures
        exists|draws: Seq<CoupleDraw>|
            draws.len() == jacks@.len() && command_views(r@) == #[trigger] setup_train_commands(
                jacks@,
                jills@,
                draws,
            ),
{
    let mut draws: Vec<CoupleDraw> = Vec::new();
    let mut i: usize = 0;
    while i < jacks.len()
        invariant
            i <= jacks.len(),
            draws@.len() == i,
        decreases jacks.len() - i,
    {
        let lonely = weighted_cointoss(1, 2);
        let exciting = weighted_cointoss(1, 2);
        let jill_likes = weighted_cointoss(1, 2);
        draws.push((lonely, exciting, jill_likes));
        i += 1;
    }
    setup_train_with(storage, jacks, jills, &draws)
}

/// The test propositions of the first `n` couples: whether he dates her.
pub open spec fn test_propositions(n: nat) -> Seq<PropositionView> {
    Seq::new(
        n,
        |i: int|
            relation_fact(
                "date"@,
                Domain::Jack,
                member_name(true, Domain::Jack, i as nat),
                Domain::Jill,
                member_name(true, Domain::Jill, i as nat),
            ),
    )
}

/// What the `i`-th test couple writes: both entities, then his loneliness,
/// her excitement and her liking him.
pub open spec fn test_couple(i: nat, d: CoupleDraw) -> Seq<CommandView> {
    let jack = member_name(true, Domain::Jack, i);
    let jill = member_name(true, Domain::Jill, i);
    seq![
        CommandView::SetAdd { key: domain_text(Domain::Jack), member: PayloadView::Text(jack) },
        CommandView::SetAdd { key: domain_text(Domain::Jill), member: PayloadView::Text(jill) },
    ] + stored_fact(subject_fact("lonely"@, Domain::Jack, jack), d.0) + stored_fact(
        subject_fact("exciting"@, Domain::Jill, jill),
        d.1,
    ) + stored_fact(relation_fact("like"@, Domain::Jill, jill, Domain::Jack, jack), d.2)
}

/// Whatever a test couple draws, once its records are written the hash of
/// probabilities holds the draws as observed: whether he is lonely, whether
/// she is exciting, whether she likes him.
pub proof fn lemma_test_couple_observations(i: nat, d: CoupleDraw)
    ensures
        map_read(test_couple(i, d), "probs"@, proposition_text(subject_fact("lonely"@, Domain::Jack, member_name(true, Domain::Jack, i))))
            == Some(PayloadView::Text(boolean_text(d.0))),
        map_read(test_couple(i, d), "probs"@, proposition_text(subject_fact("exciting"@, Domain::Jill, member_name(true, Domain::Jill, i))))
            == Some(PayloadView::Text(boolean_text(d.1))),
        map_read(
            test_couple(i, d),
            "probs"@,
            proposition_text(relation_fact("like"@, Domain::Jill, member_name(true, Domain::Jill, i), Domain::Jack, member_name(true, Domain::Jack, i))),
        ) == Some(PayloadView::Text(boolean_text(d.2))),
{
    let jack = member_name(true, Domain::Jack, i);
    let jill = member_name(true, Domain::Jill, i);
    reveal_strlit("test");
    reveal_strlit("_");
    reveal_strlit("Jack");
    reveal_strlit("Jill");
    let x: int = 6;
    assert(jack[x] != jill[x]);
    let f1 = subject_fact("lonely"@, Domain::Jack, jack);
    let f2 = subject_fact("exciting"@, Domain::Jill, jill);
    let f3 = relation_fact("like"@, Domain::Jill, jill, Domain::Jack, jack);
    let head = seq![
        CommandView::SetAdd { key: domain_text(Domain::Jack), member: PayloadView::Text(jack) },
        CommandView::SetAdd { key: domain_text(Domain::Jill), member: PayloadView::Text(jill) },
    ];
    let s1 = stored_fact(f1, d.0);
    let s2 = stored_fact(f2, d.1);
    let s3 = stored_fact(f3, d.2);
    let m = test_couple(i, d);
    assert(m == head + s1 + s2 + s3);
    reveal_strlit("lonely");
    reveal_strlit("exciting");
    reveal_strlit("like");
    reveal_strlit("propositions");
    reveal_strlit("probs");
    assert("propositions"@ != "probs"@) by {
        assert("propositions"@.len() != "probs"@.len());
    }
    lemma_subjects_differ(f1, f2, Domain::Jack, jack, Domain::Jill, jill, x);
    lemma_subjects_differ(f1, f3, Domain::Jack, jack, Domain::Jill, jill, x);
    lemma_subject_relations_differ(f2, f3, "exciting"@, "like"@, 0);
    assert(map_read(m, "probs"@, proposition_text(f3)) == Some(PayloadView::Text(boolean_text(d.2)))) by {
        assert(head + s1 + s2 + s3 =~= (head + s1 + s2 + seq![proposition_record(f3)]).push(probability_record(f3, d.2)));
        lemma_map_read_write(head + s1 + s2 + seq![proposition_record(f3)], "probs"@, proposition_text(f3), PayloadView::Text(boolean_text(d.2)));
    }
    assert(map_read(m, "probs"@, proposition_text(f2)) == Some(PayloadView::Text(boolean_text(d.1)))) by {
        let f = proposition_text(f2);
        assert(head + s1 + s2 =~= (head + s1 + seq![proposition_record(f2)]).push(probability_record(f2, d.1)));
        lemma_map_read_write(head + s1 + seq![proposition_record(f2)], "probs"@, f, PayloadView::Text(boolean_text(d.1)));
        assert forall|k: int| 0 <= k < s3.len() implies !writes_entry(#[trigger] s3[k], "probs"@, f) by {}
        lemma_map_read_skip(head + s1 + s2, s3, "probs"@, f);
    }
    assert(map_read(m, "probs"@, proposition_text(f1)) == Some(PayloadView::Text(boolean_text(d.0)))) by {
        let f = proposition_text(f1);
        assert(head + s1 =~= (head + seq![proposition_record(f1)]).push(probability_record(f1, d.0)));
        lemma_map_read_write(head + seq![proposition_record(f1)], "probs"@, f, PayloadView::Text(boolean_text(d.0)));
        assert forall|k: int| 0 <= k < s2.len() implies !writes_entry(#[trigger] s2[k], "probs"@, f) by {}
        assert forall|k: int| 0 <= k < s3.len() implies !writes_entry(#[trigger] s3[k], "probs"@, f) by {}
        lemma_map_read_skip(head + s1, s2, "probs"@, f);
        lemma_map_read_skip(head + s1 + s2, s3, "probs"@, f);
    }
}

/// What the first `n` test couples write.
pub open spec fn test_couples(draws: Seq<CoupleDraw>, n: nat) -> Seq<CommandView>
    decreases n,
{
    if n == 0 {
        Seq::empty()
    } else {
        test_couples(draws, (n - 1) as nat) + test_couple((n - 1) as nat, draws[n - 1])
    }
}

/// The number of test couples.
pub const TEST_COUPLES: u32 = 10;

/// Test setup for the given draws, one per couple: the commands, and the
/// propositions to test, whether each man dates his woman.
pub fn setup_test_with(storage: &Storage, draws: &Vec<CoupleDraw>) -> (r: (Vec<StoreCommand>, Vec<Proposition>))
    requires
        draws@.len() == TEST_COUPLES,
    ensures
        command_views(r.0@) == test_couples(draws@, TEST_COUPLES as nat),
        proposition_views(r.1@) == test_propositions(TEST_COUPLES as nat),
{
    let mut out: Vec<StoreCommand> = Vec::new();
    let mut result: Vec<Proposition> = Vec::new();
    let mut i: u32 = 0;
    while i < TEST_COUPLES
        invariant
            i <= TEST_COUPLES,
            draws@.len() == TEST_COUPLES,
            command_views(out@) == test_couples(draws@, i as nat),
            proposition_views(result@) == test_propositions(i as nat),
        decreases TEST_COUPLES - i,
    {
        let jack = Entity { domain: Domain::Jack, name: member_name_string(true, Domain::Jack, i) };
        let jill = Entity { domain: Domain::Jill, name: member_name_string(true, Domain::Jill, i) };
        let (lonely, exciting, jill_likes) = draws[i as usize];
        let mut block: Vec<StoreCommand> = Vec::new();
        block.push(storage.store_entity(&jack));
        block.push(storage.store_entity(&jill));
        proof {
            assert(command_views(block@) =~= seq![
                CommandView::SetAdd { key: domain_text(Domain::Jack), member: PayloadView::Text(jack.name@) },
                CommandView::SetAdd { key: domain_text(Domain::Jill), member: PayloadView::Text(jill.name@) },
            ]);
        }
        let p1 = subject_proposition("lonely", Domain::Jack, jack.name.as_str());
        store_fact(storage, &mut block, &p1, lonely);
        let p2 = subject_proposition("exciting", Domain::Jill, jill.name.as_str());
        store_fact(storage, &mut block, &p2, exciting);
        let p3 = relation_proposition("like", Domain::Jill, jill.name.as_str(), Domain::Jack, jack.name.as_str());
        store_fact(storage, &mut block, &p3, jill_likes);
        append_commands(&mut out, block);
        let dates = relation_proposition("date", Domain::Jack, jack.name.as_str(), Domain::Jill, jill.name.as_str());
        let ghost before = result@;
        result.push(dates);
        proof {
            assert(proposition_views(result@) =~= proposition_views(before).push(dates@));
            assert(test_propositions((i + 1) as nat) =~= test_propositions(i as nat).push(dates@));
        }
        i += 1;
    }
    (out, result)
}

/// Test setup: draws three fair coins for each of the test couples, and
/// returns the commands and the propositions to test.
pub fn setup_test(storage: &Storage) -> (r: (Vec<StoreCommand>, Vec<Proposition>))
    ensures
        exists|draws: Seq<CoupleDraw>|
            draws.len() == TEST_COUPLES && command_views(r.0@) == #[trigger] test_couples(
                draws,
                TEST_COUPLES as nat,
            ),
        proposition_views(r.1@) == test_propositions(TEST_COUPLES as nat),
{
    let mut draws: Vec<CoupleDraw> = Vec::new();
    let mut i: u32 = 0;
    while i < TEST_COUPLES
        invariant
            i <= TEST_COUPLES,
            draws@.len() == i,
        decreases TEST_COUPLES - i,
    {
        let lonely = weighted_cointoss(1, 2);
        let exciting = weighted_cointoss(1, 2);
        let jill_likes = weighted_cointoss(1, 2);
        draws.push((lonely, exciting, jill_likes));
        i += 1;
    }
    setup_test_with(storage, &draws)
}

} // verus!
