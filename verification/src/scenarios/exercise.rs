//! An exercise world, kept in the store without namespaces: men who are
//! educated or not, and rich more often when educated.

use vstd::prelude::*;
use crate::creators::conjunction;
use crate::objects::{
    proposition_views, role_map_views, Domain, Entity, Implication, ImplicationView, Proposition,
    RoleMap,
};
use crate::scenarios::dating1::{
    push_training_entities, raw_implications_commands, store_implications, stored_fact, subject_fact,
    subject_pattern, subject_predicate, subject_proposition, training_entities,
};
use crate::scenarios::{member_count, role_map_one, weighted_cointoss};
use crate::search::implication_views;
use crate::storage::Storage;
use crate::store::{
    append_commands, command_views, lemma_map_read_skip, lemma_map_read_write, map_read, push_command,
    writes_entry, CommandView, PayloadView, StoreCommand,
};
use crate::storage::probability_record;
use crate::proposition_db::boolean_text;
use crate::objects::{lemma_texts_differ_at, proposition_text, role_text};

verus! {

/// The draws of one man: whether he is educated (a fair coin), whether he is
/// rich (eight in ten when educated, two in ten otherwise).
pub type ExerciseDraw = (bool, bool);

/// What the first part of the setup writes: empty the database, then store
/// `n` men.
pub open spec fn exercise_entities_commands(n: nat) -> Seq<CommandView> {
    seq![CommandView::FlushDb] + training_entities(Domain::Jack, n)
}

/// What the man `jack` writes for his draws.
pub open spec fn exercise_member(jack: Entity, d: ExerciseDraw) -> Seq<CommandView> {
    stored_fact(subject_fact("educated"@, jack.domain, jack.name@), d.0) + stored_fact(
        subject_fact("rich"@, jack.domain, jack.name@),
        d.1,
    )
}

/// Whatever a man draws, once his records are written the hash of
/// probabilities holds the draws as whether he is educated and whether he
/// is rich.
pub proof fn lemma_exercise_probabilities(jack: Entity, d: ExerciseDraw)
    ensures
        map_read(exercise_member(jack, d), "probs"@, proposition_text(subject_fact("educated"@, jack.domain, jack.name@)))
            == Some(PayloadView::Text(boolean_text(d.0))),
        map_read(exercise_member(jack, d), "probs"@, proposition_text(subject_fact("rich"@, jack.domain, jack.name@)))
            == Some(PayloadView::Text(boolean_text(d.1))),
{
    let educated = subject_fact("educated"@, jack.domain, jack.name@);
    let rich = subject_fact("rich"@, jack.domain, jack.name@);
    let m = exercise_member(jack, d);
    let first = stored_fact(educated, d.0);
    let second = stored_fact(rich, d.1);
    assert(m =~= first.drop_last().push(probability_record(educated, d.0)) + second);
    assert(m =~= (first + second.drop_last()).push(probability_record(rich, d.1)));
    lemma_map_read_write(first + second.drop_last(), "probs"@, proposition_text(rich), PayloadView::Text(boolean_text(d.1)));
    reveal_strlit("educated");
    reveal_strlit("rich");
    reveal_strlit("relation");
    reveal_strlit("=");
    reveal_strlit("propositions");
    reveal_strlit("probs");
    assert(role_text(educated[1]) == "relation"@ + "="@ + "educated"@);
    assert(role_text(rich[1]) == "relation"@ + "="@ + "rich"@);
    assert(educated[0] == rich[0]);
    lemma_texts_differ_at(educated, rich, 1, 9);
    assert("propositions"@ != "probs"@) by {
        assert("propositions"@.len() != "probs"@.len());
    }
    lemma_map_read_write(first.drop_last(), "probs"@, proposition_text(educated), PayloadView::Text(boolean_text(d.0)));
    assert forall|k: int| 0 <= k < second.len() implies !writes_entry(#[trigger] second[k], "probs"@, proposition_text(educated)) by {}
    lemma_map_read_skip(first.drop_last().push(probability_record(educated, d.0)), second, "probs"@, proposition_text(educated));
}

/// What the first `n` men write.
pub open spec fn exercise_members(jacks: Seq<Entity>, draws: Seq<ExerciseDraw>, n: nat) -> Seq<CommandView>
    decreases n,
{
    if n == 0 {
        Seq::empty()
    } else {
        exercise_members(jacks, draws, (n - 1) as nat) + exercise_member(jacks[n - 1], draws[n - 1])
    }
}

/// Being educated implies being rich.
pub open spec fn exercise_implications() -> Seq<ImplicationView> {
    seq![
        ImplicationView {
            premise: seq![subject_pattern("educated"@, Domain::Jack)],
            conclusion: subject_pattern("rich"@, Domain::Jack),
            role_maps: seq![seq![("subject"@, "subject"@)]],
        },
    ]
}

/// What the second part of the setup writes, for the men read back and
/// their draws.
pub open spec fn exercise_commands(jacks: Seq<Entity>, draws: Seq<ExerciseDraw>) -> Seq<CommandView> {
    exercise_members(jacks, draws, jacks.len()) + raw_implications_commands(exercise_implications())
}

fn exercise_member_commands(storage: &Storage, jack: &Entity, d: ExerciseDraw) -> (r: (Vec<StoreCommand>, Proposition))
    ensures
        command_views(r.0@) == exercise_member(*jack, d),
        r.1@ == subject_fact("rich"@, jack.domain, jack.name@),
{
    let educated = subject_proposition("educated", jack.domain, jack.name.as_str());
    let rich = subject_proposition("rich", jack.domain, jack.name.as_str());
    let mut out = storage.store_proposition(&educated, d.0);
    append_commands(&mut out, storage.store_proposition(&rich, d.1));
    (out, rich)
}

fn exercise_implication_list() -> (r: Vec<Implication>)
    ensures
        implication_views(r@) == exercise_implications(),
{
    let mut premise: Vec<Proposition> = Vec::new();
    premise.push(subject_predicate("educated", Domain::Jack));
    let mut maps: Vec<RoleMap> = Vec::new();
    maps.push(role_map_one("subject", "subject"));
    proof {
        assert(proposition_views(premise@) =~= exercise_implications()[0].premise);
        assert(role_map_views(maps@) =~= exercise_implications()[0].role_maps);
    }
    let mut r: Vec<Implication> = Vec::new();
    r.push(crate::creators::implication(conjunction(premise), subject_predicate("rich", Domain::Jack), maps));
    proof {
        assert(implication_views(r@) =~= exercise_implications());
    }
    r
}

/// The first part of the setup: empties the database and stores
/// `entities_per_domain` men, who are then read back for `setup_scenario`.
pub fn setup_entities(storage: &Storage, entities_per_domain: i32) -> (r: Vec<StoreCommand>)
    ensures
        command_views(r@) == exercise_entities_commands(member_count(entities_per_domain)),
{
    let n: u32 = if entities_per_domain <= 0 {
        0
    } else {
        entities_per_domain as u32
    };
    let mut out: Vec<StoreCommand> = Vec::new();
    push_command(&mut out, storage.drop_all_dbs());
    assert(command_views(out@) =~= seq![CommandView::FlushDb]);
    push_training_entities(storage, &mut out, Domain::Jack, n);
    out
}

/// The facts of each man read back, for the given draws, then the
/// implication; also the propositions of his riches, in order.
pub fn setup_scenario_with(storage: &Storage, jacks: &Vec<Entity>, draws: &Vec<ExerciseDraw>) -> (r: (Vec<StoreCommand>, Vec<Proposition>))
    requires
        draws@.len() == jacks@.len(),
    ensures
        command_views(r.0@) == exercise_commands(jacks@, draws@),
        proposition_views(r.1@) == jacks@.map_values(|j: Entity| subject_fact("rich"@, j.domain, j.name@)),
{
    let mut out: Vec<StoreCommand> = Vec::new();
    let mut riches: Vec<Proposition> = Vec::new();
    let mut i: usize = 0;
    while i < jacks.len()
        invariant
            0 <= i <= jacks.len(),
            draws@.len() == jacks@.len(),
            command_views(out@) == exercise_members(jacks@, draws@, i as nat),
            proposition_views(riches@) == jacks@.take(i as int).map_values(
                |j: Entity| subject_fact("rich"@, j.domain, j.name@),
            ),
        decreases jacks.len() - i,
    {
        let (block, rich) = exercise_member_commands(storage, &jacks[i], draws[i]);
        append_commands(&mut out, block);
        let ghost before = riches@;
        riches.push(rich);
        proof {
            assert(proposition_views(riches@) =~= proposition_views(before).push(rich@));
            assert(jacks@.take(i + 1).map_values(|j: Entity| subject_fact("rich"@, j.domain, j.name@))
                =~= jacks@.take(i as int).map_values(
                |j: Entity| subject_fact("rich"@, j.domain, j.name@),
            ).push(subject_fact("rich"@, jacks@[i as int].domain, jacks@[i as int].name@)));
        }
        i += 1;
    }
    proof {
        assert(jacks@.take(i as int) =~= jacks@);
    }
    let implications = exercise_implication_list();
    append_commands(&mut out, store_implications(storage, &implications));
    (out, riches)
}

fn draw_exercise(n: usize) -> (r: Vec<ExerciseDraw>)
    ensures
        r@.len() == n,
{
    let mut draws: Vec<ExerciseDraw> = Vec::new();
    let mut i: usize = 0;
    while i < n
        invariant
            i <= n,
            draws@.len() == i,
        decreases n - i,
    {
        let educated = weighted_cointoss(1, 2);
        let rich = if educated {
            weighted_cointoss(8, 10)
        } else {
            weighted_cointoss(2, 10)
        };
        draws.push((educated, rich));
        i += 1;
    }
    draws
}

/// The second part of the setup: draws, for each man read back, whether he
/// is educated and whether he is rich, and writes their facts and the
/// implication.
pub fn setup_scenario(storage: &Storage, jacks: &Vec<Entity>) -> (r: Vec<StoreCommand>)
    ensures
        exists|draws: Seq<ExerciseDraw>|
            draws.len() == jacks@.len() && command_views(r@) == #[trigger] exercise_commands(
                jacks@,
                draws,
            ),
{
    let draws = draw_exercise(jacks.len());
    setup_scenario_with(storage, jacks, &draws).0
}

/// The number of test men.
pub const TEST_MEN: u32 = 10;

/// The first part of test setup: stores the test men, who are then read
/// back, with the others, for `setup_test`.
pub fn setup_test_entities(storage: &Storage) -> (r: Vec<StoreCommand>)
    ensures
        command_views(r@) == training_entities(Domain::Jack, TEST_MEN as nat),
{
    let mut out: Vec<StoreCommand> = Vec::new();
    proof {
        assert(command_views(out@) =~= Seq::<CommandView>::empty());
    }
    push_training_entities(storage, &mut out, Domain::Jack, TEST_MEN);
    assert(command_views(out@) =~= training_entities(Domain::Jack, TEST_MEN as nat));
    out
}

/// Test setup: draws the facts of each man read back, writes them, and
/// returns the commands and the propositions to test, his riches.
pub fn setup_test(storage: &Storage, jacks: &Vec<Entity>) -> (r: (Vec<StoreCommand>, Vec<Proposition>))
    ensures
        exists|draws: Seq<ExerciseDraw>|
            draws.len() == jacks@.len() && command_views(r.0@) == #[trigger] exercise_members(
                jacks@,
                draws,
                jacks@.len(),
            ),
        proposition_views(r.1@) == jacks@.map_values(|j: Entity| subject_fact("rich"@, j.domain, j.name@)),
{
    let draws = draw_exercise(jacks.len());
    let mut out: Vec<StoreCommand> = Vec::new();
    let mut riches: Vec<Proposition> = Vec::new();
    let mut i: usize = 0;
    while i < jacks.len()
        invariant
            0 <= i <= jacks.len(),
            draws@.len() == jacks@.len(),
            command_views(out@) == exercise_members(jacks@, draws@, i as nat),
            proposition_views(riches@) == jacks@.take(i as int).map_values(
                |j: Entity| subject_fact("rich"@, j.domain, j.name@),
            ),
        decreases jacks.len() - i,
    {
        let (block, rich) = exercise_member_commands(storage, &jacks[i], draws[i]);
        append_commands(&mut out, block);
        let ghost before = riches@;
        riches.push(rich);
        proof {
            assert(proposition_views(riches@) =~= proposition_views(before).push(rich@));
            assert(jacks@.take(i + 1).map_values(|j: Entity| subject_fact("rich"@, j.domain, j.name@))
                =~= jacks@.take(i as int).map_values(
                |j: Entity| subject_fact("rich"@, j.domain, j.name@),
            ).push(subject_fact("rich"@, jacks@[i as int].domain, jacks@[i as int].name@)));
        }
        i += 1;
    }
    proof {
        assert(jacks@.take(i as int) =~= jacks@);
    }
    (out, riches)
}

} // verus!
