use bayes_star::creators;
use bayes_star::creators::{conjunction, constant, implication, predicate, proposition, variable};
use bayes_star::error::BayesError;
use bayes_star::graph::{domain_check, entities_from_names, InferenceGraph};
use bayes_star::objects::{Domain, Entity, Proposition, RoleMap};
use bayes_star::proposition_db::{EmptyBeliefTable, RedisBeliefTable};
use bayes_star::storage::Storage;
use bayes_star::store::{namespace_qualified_key, Payload, StoreCommand};
use bayes_star::train::TrainingPlan;
use bayes_star::weights::{negative_feature, positive_feature, ExponentialWeights};

fn fact(name: &str) -> Proposition {
    proposition("exciting".to_string(), vec![creators::sub(constant(Domain::Jack, name.to_string()))])
}

fn key_of(c: &StoreCommand) -> String {
    match c {
        StoreCommand::SetValue { key, .. }
        | StoreCommand::GetValue { key }
        | StoreCommand::MapInsert { key, .. }
        | StoreCommand::MapGet { key, .. }
        | StoreCommand::SetAdd { key, .. }
        | StoreCommand::SetMembers { key }
        | StoreCommand::IsMember { key, .. }
        | StoreCommand::RequireMember { key, .. }
        | StoreCommand::SeqPush { key, .. }
        | StoreCommand::SeqGetAll { key }
        | StoreCommand::SeqDrain { key } => key.clone(),
        StoreCommand::FlushDb => String::new(),
    }
}

#[test]
fn keys_are_namespaced() {
    assert_eq!(namespace_qualified_key("dating", "domains"), "bayes-star:dating:domains");
    assert_eq!(namespace_qualified_key("", ""), "bayes-star::");
}

#[test]
fn registering_and_checking_a_domain_use_one_set() {
    let g = InferenceGraph::new_literal("ns".to_string());
    let w = g.register_domain("Jack");
    let r = g.check_domain("Jack");
    assert_eq!(key_of(&w), key_of(&r));
    assert_eq!(key_of(&w), "bayes-star:ns:domains");
    match r {
        StoreCommand::RequireMember { member, .. } => assert_eq!(member, "Jack"),
        other => panic!("unexpected {:?}", other),
    }
}

#[test]
fn domain_check_errors_name_the_domain() {
    assert_eq!(domain_check("Jill", true), Ok(()));
    assert_eq!(domain_check("Jill", false), Err(BayesError::DomainNotRegistered("Jill".to_string())));
}

#[test]
fn storing_an_entity_checks_then_adds() {
    let g = InferenceGraph::new_literal("ns".to_string());
    let cmds = g.store_entity(&Entity { domain: Domain::Jill, name: "train_Jill3".to_string() });
    assert_eq!(cmds.len(), 2);
    assert!(matches!(&cmds[0], StoreCommand::RequireMember { key, member } if key == "bayes-star:ns:domains" && member == "Jill"));
    assert!(matches!(&cmds[1], StoreCommand::SetAdd { key, member: Payload::Text(n) } if key == "bayes-star:ns:Jill" && n == "train_Jill3"));
    assert_eq!(key_of(&g.get_entities_in_domain(Domain::Jill)), "bayes-star:ns:Jill");
}

#[test]
fn entities_from_names_keep_order() {
    let es = entities_from_names(Domain::Jack, vec!["b".to_string(), "a".to_string()]);
    assert_eq!(es, vec![
        Entity { domain: Domain::Jack, name: "b".to_string() },
        Entity { domain: Domain::Jack, name: "a".to_string() },
    ]);
}

#[test]
fn implications_are_linked_backward_under_their_conclusion() {
    let g = InferenceGraph::new_literal("ns".to_string());
    let x = variable(Domain::Jack);
    let imp = implication(
        conjunction(vec![predicate("exciting".to_string(), vec![creators::sub(x.clone())])]),
        predicate("rich".to_string(), vec![creators::sub(x.clone())]),
        vec![RoleMap::new(vec![("sub".to_string(), "sub".to_string())])],
    );
    let cmds = g.store_predicate_implication(&imp);
    assert_eq!(cmds.len(), 2);
    assert_eq!(key_of(&cmds[0]), "bayes-star:ns:implications");
    assert_eq!(key_of(&cmds[1]), "bayes-star:ns:predicate_backward:[relation=rich,sub=?Jack]");
    let read = g.predicate_backward_links(&predicate("rich".to_string(), vec![creators::sub(x)]));
    assert_eq!(key_of(&read), key_of(&cmds[1]));
    let several = g.store_predicate_implications(&vec![imp.clone(), imp]);
    assert_eq!(several.len(), 4);
}

#[test]
fn existence_backlinks_conclude_the_quantified_pattern() {
    let g = InferenceGraph::new_literal("ns".to_string());
    let cmds = g.ensure_existence_backlinks_for_proposition(&fact("j1"));
    assert_eq!(cmds.len(), 2);
    assert_eq!(key_of(&cmds[1]), "bayes-star:ns:predicate_backward:[relation=exciting,sub=?Jack]");
    match &cmds[0] {
        StoreCommand::SetAdd { member: Payload::Implication(i), .. } => {
            assert_eq!(i.premise.search_string(), "[relation=exist,sub=?Jack]");
        }
        other => panic!("unexpected {:?}", other),
    }
}

#[test]
fn registry_keys() {
    let g = InferenceGraph::new_shared("n".to_string());
    assert_eq!(key_of(&g.register_experiment("e1")), "bayes-star:n:experiments");
    assert_eq!(key_of(&g.get_all_experiments()), "bayes-star:n:experiments");
    assert_eq!(key_of(&g.get_all_relations()), "bayes-star:n:relations");
    assert_eq!(key_of(&g.get_all_domains()), "bayes-star:n:domains");
    assert_eq!(key_of(&g.register_target(&fact("t"))), "bayes-star:n:target");
    assert_eq!(key_of(&g.get_target()), "bayes-star:n:target");
    assert_eq!(key_of(&g.get_all_implications()), "bayes-star:n:implications");
}

#[test]
fn training_and_test_queues_are_apart() {
    let plan = TrainingPlan::new("ns".to_string());
    let p = fact("j");
    assert!(plan.maybe_add_to_training(false, &p).is_none());
    assert!(plan.maybe_add_to_test(false, &p).is_none());
    let t = plan.maybe_add_to_training(true, &p).unwrap();
    let e = plan.maybe_add_to_test(true, &p).unwrap();
    assert_eq!(key_of(&t), key_of(&plan.get_training_questions()));
    assert_eq!(key_of(&e), key_of(&plan.get_test_questions()));
    assert_ne!(key_of(&t), key_of(&e));
}

#[test]
fn beliefs_are_written_as_one_and_zero() {
    let table = RedisBeliefTable::new_mutable("ns".to_string());
    let p = fact("j");
    match table.store_proposition_boolean(&p, true) {
        StoreCommand::MapInsert { key, field, value: Payload::Text(v) } => {
            assert_eq!(key, "bayes-star:ns:probabilities");
            assert_eq!(field, "[relation=exciting,sub=j]");
            assert_eq!(v, "1");
        }
        other => panic!("unexpected {:?}", other),
    }
    assert!(matches!(table.store_proposition_boolean(&p, false), StoreCommand::MapInsert { value: Payload::Text(v), .. } if v == "0"));
    assert!(table.get_proposition_probability(&p).is_some());
}

#[test]
fn existence_is_certain() {
    let g = InferenceGraph::new_literal("ns".to_string());
    let cmds = g.ensure_existence_backlinks_for_proposition(&fact("j"));
    let existence = match &cmds[0] {
        StoreCommand::SetAdd { member: Payload::Implication(i), .. } => i.premise.terms[0].clone(),
        other => panic!("unexpected {:?}", other),
    };
    let table = RedisBeliefTable::new_shared("ns".to_string());
    assert!(table.get_proposition_probability(&existence).is_none());
    let empty = EmptyBeliefTable::new_shared();
    assert!(empty.get_proposition_probability(&existence));
    assert!(!empty.get_proposition_probability(&fact("j")));
}

#[test]
fn storage_without_namespaces() {
    let s = Storage::new();
    assert!(matches!(s.drop_all_dbs(), StoreCommand::FlushDb));
    let e = Entity { domain: Domain::Jill, name: "Jill0".to_string() };
    assert_eq!(key_of(&s.store_entity(&e)), "Jill");
    let cmds = s.store_proposition(&fact("j"), true);
    assert_eq!(key_of(&cmds[0]), "propositions");
    assert_eq!(key_of(&cmds[1]), "probs");
    assert!(matches!(s.get_training_questions(), StoreCommand::SeqDrain { key } if key == "training_queue"));
    assert!(matches!(s.get_test_questions(), StoreCommand::SeqDrain { key } if key == "test_queue"));
    let found = Storage::entities_in_domain("Jill", vec!["Jill0".to_string()]);
    assert_eq!(found, vec![e]);
    assert_eq!(Storage::entities_in_domain("Nobody", vec![]), vec![]);
    assert_eq!(key_of(&s.find_premises("[relation=date]")), "[relation=date]");
}

#[test]
fn weight_features() {
    assert_eq!(positive_feature("k", 0), "+>- k");
    assert_eq!(negative_feature("k", 0), "->- k");
    assert_eq!(positive_feature("k", 1), "+>+ k");
    assert_eq!(negative_feature("k", 7), "->+ k");
    let w = ExponentialWeights::new("ns".to_string());
    let x = variable(Domain::Jack);
    let imp = implication(
        conjunction(vec![predicate("a".to_string(), vec![creators::sub(x.clone())])]),
        predicate("b".to_string(), vec![creators::sub(x)]),
        vec![RoleMap::new(vec![("sub".to_string(), "sub".to_string())])],
    );
    let init: Vec<String> = vec!["0.1".into(), "0.2".into(), "0.3".into(), "0.4".into()];
    let cmds = w.initialize_weights(&imp, &init);
    assert_eq!(cmds.len(), 4);
    let key = imp.unique_key();
    let mut fields = vec![];
    for c in &cmds {
        match c {
            StoreCommand::MapInsert { key: k, field, value: Payload::Text(v) } => {
                assert_eq!(k, "bayes-star:ns:weights");
                fields.push((field.clone(), v.clone()));
            }
            other => panic!("unexpected {:?}", other),
        }
    }
    assert_eq!(fields, vec![
        (positive_feature(&key, 0), "0.1".to_string()),
        (negative_feature(&key, 0), "0.2".to_string()),
        (positive_feature(&key, 1), "0.3".to_string()),
        (negative_feature(&key, 1), "0.4".to_string()),
    ]);
    assert!(matches!(w.read_single_weight("f"), StoreCommand::MapGet { key, field } if key == "bayes-star:ns:weights" && field == "f"));
}

#[test]
fn namespaces_do_not_share_keys() {
    let a = InferenceGraph::new_literal("a".to_string());
    let b = InferenceGraph::new_literal("b".to_string());
    assert_ne!(key_of(&a.get_all_domains()), key_of(&b.get_all_domains()));
    // a namespace with a colon can collide with another one
    assert_eq!(namespace_qualified_key("a", "b:c"), namespace_qualified_key("a:b", "c"));
}

#[test]
fn entity_sets_are_not_bookkeeping_sets() {
    let g = InferenceGraph::new_literal("ns".to_string());
    let bookkeeping = vec![
        key_of(&g.get_all_experiments()),
        key_of(&g.get_all_relations()),
        key_of(&g.get_all_implications()),
        key_of(&g.get_target()),
        key_of(&g.get_all_domains()),
        key_of(&g.predicate_backward_links(&fact("x"))),
    ];
    for d in [Domain::Jack, Domain::Jill, Domain::Verb] {
        assert!(!bookkeeping.contains(&key_of(&g.get_entities_in_domain(d))));
    }
}

#[test]
fn the_four_weight_features_differ() {
    let fs = vec![positive_feature("k", 0), negative_feature("k", 0), positive_feature("k", 1), negative_feature("k", 1)];
    for i in 0..4 {
        for j in (i + 1)..4 {
            assert_ne!(fs[i], fs[j]);
        }
    }
}
