use bayes_star::creators;
use bayes_star::creators::{conjunction, constant, implication, obj, predicate, proposition, role, variable};
use bayes_star::error::BayesError;
use bayes_star::objects::{Conjunction, Domain, FirstOrderArgument, Proposition, RoleMap, RoleMapList};
use bayes_star::ops::{convert_to_proposition, convert_to_quantified, extract_premise_role_map, ArgumentMap};

fn jack_exciting(name: &str) -> Proposition {
    proposition("exciting".to_string(), vec![creators::sub(constant(Domain::Jack, name.to_string()))])
}

#[test]
fn domain_names_read_back() {
    for d in [Domain::Jack, Domain::Jill, Domain::Verb] {
        assert_eq!(Domain::from_str(&d.to_string()), Some(d));
    }
    assert_eq!(Domain::Jack.to_string(), "Jack");
    assert_eq!(Domain::from_str("Man"), None);
    assert_eq!(Domain::from_str(""), None);
}

#[test]
fn argument_search_strings() {
    let c = constant(Domain::Jill, "jill7".to_string());
    let v = variable(Domain::Jill);
    assert_eq!(c.search_string(), "jill7");
    assert_eq!(v.search_string(), "?Jill");
    assert!(c.is_constant() && !c.is_variable());
    assert!(v.is_variable() && !v.is_constant());
    assert_eq!(c.convert_to_quantified().search_string(), "?Jill");
}

#[test]
fn proposition_search_string_lists_roles_in_order() {
    let p = proposition(
        "like".to_string(),
        vec![creators::sub(constant(Domain::Jack, "j".to_string())), obj(constant(Domain::Jill, "l".to_string()))],
    );
    assert_eq!(p.search_string(), "[relation=like,sub=j,obj=l]");
    assert_eq!(p.role_names(), vec!["relation".to_string(), "sub".to_string(), "obj".to_string()]);
    assert!(p.is_fact());
    let q = predicate("like".to_string(), vec![creators::sub(variable(Domain::Jack)), obj(variable(Domain::Jill))]);
    assert_eq!(q.search_string(), "[relation=like,sub=?Jack,obj=?Jill]");
    assert!(!q.is_fact());
}

#[test]
fn conjunction_search_string_ignores_term_order() {
    let a = jack_exciting("a");
    let b = jack_exciting("b");
    let c1 = conjunction(vec![a.clone(), b.clone()]);
    let c2 = conjunction(vec![b, a]);
    assert_eq!(c1.search_string(), c2.search_string());
    assert_eq!(c1.search_string(), "[relation=exciting,sub=a], [relation=exciting,sub=b]");
    assert_eq!(Conjunction::new(vec![]).search_string(), "");
}

#[test]
fn role_map_text_sorted_by_key() {
    let m1 = RoleMap::new(vec![("sub".to_string(), "obj".to_string()), ("obj".to_string(), "sub".to_string())]);
    let m2 = RoleMap::new(vec![("obj".to_string(), "sub".to_string()), ("sub".to_string(), "obj".to_string())]);
    assert_eq!(m1.to_string(), "{obj: sub, sub: obj}");
    assert_eq!(m1.to_string(), m2.to_string());
    assert_eq!(m1.get("sub"), Some(&"obj".to_string()));
    assert_eq!(m1.get("relation"), None);
    let list = RoleMapList::new(vec![m1, RoleMap::new(vec![])]);
    assert_eq!(list.to_string(), "[{obj: sub, sub: obj}, {}]");
}

#[test]
fn implication_keys() {
    let xjack = variable(Domain::Jack);
    let imp = implication(
        conjunction(vec![predicate("exciting".to_string(), vec![creators::sub(xjack.clone())])]),
        predicate("rich".to_string(), vec![creators::sub(xjack)]),
        vec![RoleMap::new(vec![("sub".to_string(), "sub".to_string())])],
    );
    assert_eq!(imp.conclusion_string(), "[relation=rich,sub=?Jack]");
    assert_eq!(imp.unique_key(), "[relation=exciting,sub=?Jack]->[relation=rich,sub=?Jack][{sub: sub}]");
    assert_eq!(imp.feature_string(), "[relation=exciting,sub=?Jack][{sub: sub}]");
}

#[test]
fn quantifying_named_roles() {
    let p = jack_exciting("j1");
    let q = convert_to_quantified(&p, &["sub".to_string()]);
    assert_eq!(q.search_string(), "[relation=exciting,sub=?Jack]");
    let none = convert_to_quantified(&p, &[]);
    assert_eq!(none.search_string(), "[relation=exciting,sub=j1]");
}

#[test]
fn quantifying_leaves_the_relation() {
    let p = jack_exciting("j1");
    let q = convert_to_quantified(&p, &["relation".to_string(), "sub".to_string()]);
    assert_eq!(q.search_string(), "[relation=exciting,sub=?Jack]");
    let only = convert_to_quantified(&p, &["relation".to_string()]);
    assert_eq!(only.search_string(), "[relation=exciting,sub=j1]");
}

#[test]
fn substitution_ignores_unused_bindings() {
    let pattern = predicate("like".to_string(), vec![creators::sub(variable(Domain::Jack))]);
    let mut map = ArgumentMap::new();
    map.insert("sub".to_string(), constant(Domain::Jack, "j".to_string()));
    map.insert("obj".to_string(), variable(Domain::Jill));
    let p = convert_to_proposition(&pattern, &map).unwrap();
    assert_eq!(p.search_string(), "[relation=like,sub=j]");
}

#[test]
fn substitution_fills_variables() {
    let pattern = predicate("like".to_string(), vec![creators::sub(variable(Domain::Jack)), obj(variable(Domain::Jill))]);
    let mut map = ArgumentMap::new();
    map.insert("sub".to_string(), constant(Domain::Jack, "j".to_string()));
    map.insert("obj".to_string(), constant(Domain::Jill, "l".to_string()));
    let p = convert_to_proposition(&pattern, &map).unwrap();
    assert_eq!(p.search_string(), "[relation=like,sub=j,obj=l]");
}

#[test]
fn substitution_reports_the_missing_role() {
    let pattern = predicate("like".to_string(), vec![creators::sub(variable(Domain::Jack)), obj(variable(Domain::Jill))]);
    let mut map = ArgumentMap::new();
    map.insert("sub".to_string(), constant(Domain::Jack, "j".to_string()));
    match convert_to_proposition(&pattern, &map) {
        Err(BayesError::SubstitutionNotFound(name)) => assert_eq!(name, "obj"),
        other => panic!("unexpected {:?}", other),
    }
}

#[test]
fn premise_role_map_renames_arguments() {
    let fact = proposition(
        "like".to_string(),
        vec![creators::sub(constant(Domain::Jill, "l".to_string())), obj(constant(Domain::Jack, "j".to_string()))],
    );
    let rm = RoleMap::new(vec![("sub".to_string(), "obj".to_string()), ("obj".to_string(), "sub".to_string())]);
    let bound = extract_premise_role_map(&fact, &rm);
    match bound.get("obj") {
        Some(FirstOrderArgument::Constant(c)) => assert_eq!(c.entity_id, "l"),
        other => panic!("unexpected {:?}", other),
    }
    match bound.get("sub") {
        Some(FirstOrderArgument::Constant(c)) => assert_eq!(c.entity_id, "j"),
        other => panic!("unexpected {:?}", other),
    }
}

#[test]
fn role_constructor_names_the_role() {
    let r = role("relation".to_string(), constant(Domain::Verb, "date".to_string()));
    assert_eq!(r.search_string(), "relation=date");
}
