use bayes_star::error::BayesError;
use bayes_star::objects::{Domain, Entity};
use bayes_star::scenarios::dating1::{setup_test, setup_test_with, setup_train, setup_train_entities, setup_train_with};
use bayes_star::scenarios::dating_prob2::DatingProb2;
use bayes_star::scenarios::dating_simple::SimpleDating;
use bayes_star::scenarios::dating_triangle::EligibilityTriangle;
use bayes_star::scenarios::exercise;
use bayes_star::scenarios::factory::{ScenarioChoice, ScenarioMakerFactory};
use bayes_star::scenarios::long_and;
use bayes_star::scenarios::mid_chain;
use bayes_star::scenarios::two_var::TwoVariable;
use bayes_star::scenarios::{member_name_string, ScenarioMaker};
use bayes_star::storage::Storage;
use bayes_star::store::{Payload, StoreCommand};

fn text_inserts(cmds: &[StoreCommand], field_part: &str) -> Vec<String> {
    let mut out = vec![];
    for c in cmds {
        if let StoreCommand::MapInsert { field, value: Payload::Text(v), .. } = c {
            if field.contains(field_part) {
                out.push(v.clone());
            }
        }
    }
    out
}

#[test]
fn member_names() {
    assert_eq!(member_name_string(true, Domain::Jack, 0), "test_Jack0");
    assert_eq!(member_name_string(false, Domain::Jill, 12), "train_Jill12");
}

#[test]
fn two_variable_for_given_draws() {
    let cmds = TwoVariable {}.setup_with("tv", &vec![true, false]);
    // per member: 2 entity, 2+1+train? exciting, 2+1+train? rich, test?; then 2 for the implication
    // member 0 (test): 2 + 3 + 3 + 1 = 9; member 1 (training): 2 + 4 + 4 = 10
    assert_eq!(cmds.len(), 9 + 10 + 2);
    assert_eq!(text_inserts(&cmds, "sub=test_Jack0"), vec!["1".to_string(), "1".to_string()]);
    assert_eq!(text_inserts(&cmds, "sub=train_Jack1"), vec!["0".to_string(), "0".to_string()]);
    assert!(matches!(&cmds[cmds.len() - 1], StoreCommand::SetAdd { key, .. } if key == "bayes-star:tv:predicate_backward:[relation=rich,sub=?Jack]"));
}

#[test]
fn two_variable_draws_one_coin_per_member() {
    let cmds = TwoVariable {}.setup_scenario("tv", 3);
    assert_eq!(cmds.len(), 9 + 10 + 10 + 2);
    assert_eq!(TwoVariable {}.setup_scenario("tv", 0).len(), 2);
    assert_eq!(TwoVariable {}.setup_scenario("tv", -5).len(), 2);
}

#[test]
fn simple_dating_liking_and_dating_follow_the_draws() {
    let draws = vec![(false, false, true), (true, false, true), (false, true, false)];
    let cmds = SimpleDating {}.setup_with("sd", &draws);
    // training couples record whether he likes her and whether he dates her
    assert_eq!(text_inserts(&cmds, "relation=like,sub=train_Jack1"), vec!["1".to_string()]);
    assert_eq!(text_inserts(&cmds, "relation=date,sub=train_Jack1"), vec!["1".to_string()]);
    assert_eq!(text_inserts(&cmds, "relation=like,sub=train_Jack2"), vec!["1".to_string()]);
    assert_eq!(text_inserts(&cmds, "relation=date,sub=train_Jack2"), vec!["0".to_string()]);
    // the test couple's liking and dating are not observed
    assert!(text_inserts(&cmds, "relation=date,sub=test_Jack0").is_empty());
    assert!(matches!(&cmds[0], StoreCommand::SetAdd { key, member: Payload::Text(d) } if key == "bayes-star:sd:domains" && d == "Jack"));
}

#[test]
fn eligibility_triangle_tests_every_tenth_couple() {
    let draws = vec![true; 10];
    let cmds = EligibilityTriangle {}.setup_with("et", &draws);
    let mut tests = 0;
    for c in &cmds {
        if let StoreCommand::SeqPush { key, .. } = c {
            assert_eq!(key, "bayes-star:et:training_queue");
            tests += 1;
        }
    }
    assert_eq!(tests, 9);
    assert_eq!(text_inserts(&cmds, "sub=test_Jack9"), vec!["1".to_string()]);
}

#[test]
fn long_and_gamma_is_both_channels() {
    let cmds = long_and::Scenario {}.setup_with("la", &vec![(true, true), (true, false)]);
    assert_eq!(text_inserts(&cmds, "relation=gamma,sub=test_Jack0"), vec!["1".to_string()]);
    assert_eq!(text_inserts(&cmds, "relation=gamma,sub=train_Jack1"), vec!["0".to_string()]);
    assert_eq!(text_inserts(&cmds, "relation=alpha9,sub=train_Jack1"), vec!["1".to_string()]);
    assert_eq!(text_inserts(&cmds, "relation=beta9,sub=train_Jack1"), vec!["0".to_string()]);
}

#[test]
fn mid_chain_tests_the_top_level() {
    let cmds = mid_chain::Scenario {}.setup_with("mc", &vec![false]);
    let mut tested = vec![];
    for c in &cmds {
        if let StoreCommand::SeqPush { key, value: Payload::Proposition(p) } = c {
            if key == "bayes-star:mc:test_queue" {
                tested.push(p.search_string());
            }
        }
    }
    assert_eq!(tested, vec!["[relation=alpha4,sub=test_Jack0]".to_string()]);
}

#[test]
fn dating1_training_setup() {
    let storage = Storage::new();
    let first = setup_train_entities(&storage, 2);
    assert!(matches!(first[0], StoreCommand::FlushDb));
    assert_eq!(first.len(), 5);
    assert!(matches!(&first[4], StoreCommand::SetAdd { key, member: Payload::Text(n) } if key == "Jill" && n == "Jill1"));
    let jacks = vec![Entity { domain: Domain::Jack, name: "Jack0".into() }];
    let jills = vec![Entity { domain: Domain::Jill, name: "Jill0".into() }];
    let cmds = setup_train_with(&storage, &jacks, &jills, &vec![(false, true, true)]);
    assert_eq!(cmds.len(), 10 + 8);
    assert_eq!(text_inserts(&cmds, "subject=Jack0,relation=date"), vec!["1".to_string()]);
    assert_eq!(setup_train(&storage, &jacks, &jills).len(), 18);
}

#[test]
fn dating1_test_setup() {
    let storage = Storage::new();
    let (cmds, props) = setup_test_with(&storage, &vec![(true, true, true); 10]);
    assert_eq!(cmds.len(), 10 * 8);
    assert_eq!(props.len(), 10);
    assert_eq!(props[3].search_string(), "[subject=test_Jack3,relation=date,object=test_Jill3]");
    let (cmds2, props2) = setup_test(&storage);
    assert_eq!(cmds2.len(), 80);
    assert_eq!(props2.len(), 10);
}

#[test]
fn dating_prob2_never_likes_without_cause() {
    let storage = Storage::new();
    let cmds = DatingProb2 {}.setup_scenario(&storage, 300);
    for i in 0..300 {
        let prefix = if i % 10 == 9 { "test" } else { "train" };
        let jack = format!("{}_Jack{}", prefix, i);
        let jill = format!("{}_Jill{}", prefix, i);
        let lonely = text_inserts(&cmds, &format!("[subject={},relation=lonely]", jack));
        let exciting = text_inserts(&cmds, &format!("[subject={},relation=exciting]", jill));
        let likes = text_inserts(&cmds, &format!("[subject={},relation=like,object={}]", jack, jill));
        if i % 10 != 9 && lonely == vec!["0"] && exciting == vec!["0"] {
            assert_eq!(likes, vec!["0".to_string()]);
        }
    }
    let all: Vec<String> = text_inserts(&cmds, "relation=lonely");
    assert!(all.iter().any(|v| v == "1") && all.iter().any(|v| v == "0"));
}

#[test]
fn factory_knows_its_scenarios() {
    assert!(matches!(&*ScenarioMakerFactory::new_shared("TwoVariable").unwrap(), ScenarioChoice::TwoVariable(_)));
    assert!(matches!(&*ScenarioMakerFactory::new_shared("OneVariable").unwrap(), ScenarioChoice::OneVariable(_)));
    match ScenarioMakerFactory::new_shared("Nope") {
        Err(BayesError::UnknownScenario(n)) => assert_eq!(n, "Nope"),
        _ => panic!("expected an unknown scenario"),
    }
    let s = ScenarioMakerFactory::new_shared("EligibilityTriangle").unwrap();
    assert_eq!(s.setup_scenario("et", 1).len(), 2 + 2 + 4 + 4);
}

#[test]
fn exercise_setup_and_test() {
    let storage = Storage::new();
    let first = exercise::setup_entities(&storage, 3);
    assert_eq!(first.len(), 4);
    assert!(matches!(&first[3], StoreCommand::SetAdd { key, member: Payload::Text(n) } if key == "Jack" && n == "Jack2"));
    let jacks = vec![Entity { domain: Domain::Jack, name: "Jack0".into() }, Entity { domain: Domain::Jack, name: "Jack1".into() }];
    let (cmds, riches) = exercise::setup_scenario_with(&storage, &jacks, &vec![(true, false), (false, true)]);
    assert_eq!(cmds.len(), 2 * 4 + 2);
    assert_eq!(text_inserts(&cmds, "subject=Jack0,relation=educated"), vec!["1".to_string()]);
    assert_eq!(text_inserts(&cmds, "subject=Jack1,relation=rich"), vec!["1".to_string()]);
    assert_eq!(riches[1].search_string(), "[subject=Jack1,relation=rich]");
    assert_eq!(exercise::setup_scenario(&storage, &jacks).len(), 10);
    assert_eq!(exercise::setup_test_entities(&storage).len(), 10);
    let (tcmds, tests) = exercise::setup_test(&storage, &jacks);
    assert_eq!(tcmds.len(), 8);
    assert_eq!(tests.len(), 2);
}
