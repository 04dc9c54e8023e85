use bayes_star::creators;
use bayes_star::creators::{conjunction, constant, implication, obj, predicate, proposition, variable};
use bayes_star::inference::{build_factor_context_for_assignment, compute_each_combination, fan_out_order, groups_from_backlinks, is_leaf, is_root, score_factor_assignment_conjunction};
use bayes_star::objects::{Domain, Implication, Proposition, RoleMap};
use bayes_star::proposition_graph::{compute_backward_graph, PropositionGraph, PropositionNode};
use bayes_star::search::{compute_choose_configurations, compute_search_predicates, extract_backimplications_from_proposition, extract_existence_factor_for_proposition, extract_factor_for_proposition, extract_roles_from_indices};

fn sub_map() -> RoleMap {
    RoleMap::new(vec![("sub".to_string(), "sub".to_string())])
}

fn chain() -> Vec<Implication> {
    let x = variable(Domain::Jack);
    vec![implication(
        conjunction(vec![predicate("exciting".into(), vec![creators::sub(x.clone())])]),
        predicate("rich".into(), vec![creators::sub(x)]),
        vec![sub_map()],
    )]
}

fn jack(f: &str) -> Proposition {
    proposition(f.into(), vec![creators::sub(constant(Domain::Jack, "j".into()))])
}

#[test]
fn choose_configurations() {
    assert_eq!(compute_choose_configurations(3, 2), vec![vec![0, 1], vec![0, 2], vec![1, 2]]);
    assert_eq!(compute_choose_configurations(2, 0), vec![Vec::<usize>::new()]);
    assert_eq!(compute_choose_configurations(1, 2), Vec::<Vec<usize>>::new());
    let roles: Vec<String> = vec!["a".into(), "b".into(), "c".into()];
    assert_eq!(extract_roles_from_indices(&roles, &[0, 2]), vec!["a".to_string(), "c".to_string()]);
}

#[test]
fn search_predicates_quantify_subsets_of_roles() {
    let p = proposition(
        "like".into(),
        vec![creators::sub(constant(Domain::Jack, "j".into())), obj(constant(Domain::Jill, "l".into()))],
    );
    let found = compute_search_predicates(&p).unwrap();
    let texts: Vec<String> = found.iter().map(|q| q.search_string()).collect();
    assert_eq!(
        texts,
        vec![
            "[relation=like,sub=?Jack,obj=l]".to_string(),
            "[relation=like,sub=j,obj=?Jill]".to_string(),
            "[relation=like,sub=?Jack,obj=?Jill]".to_string(),
        ]
    );
}

#[test]
fn search_predicates_of_a_single_argument() {
    let found = compute_search_predicates(&jack("rich")).unwrap();
    let texts: Vec<String> = found.iter().map(|q| q.search_string()).collect();
    assert_eq!(texts, vec!["[relation=rich,sub=?Jack]".to_string()]);
}

#[test]
fn factor_debug_string_joins_premise_and_conclusion() {
    let imps = chain();
    let factors = extract_backimplications_from_proposition(&imps, &jack("rich")).unwrap();
    assert_eq!(factors[0].debug_string(), "[relation=exciting,sub=j] -> [relation=rich,sub=j]");
}

#[test]
fn parents_of_a_group_are_its_terms_in_order() {
    let g = compute_backward_graph(&chain(), &jack("rich")).unwrap();
    let group = PropositionNode::from_group(&conjunction(vec![jack("b"), jack("a")]));
    let parents: Vec<String> = g.get_all_backward(&group).iter().map(|n| n.debug_string()).collect();
    assert_eq!(parents, vec!["([relation=b,sub=j])".to_string(), "([relation=a,sub=j])".to_string()]);
}

#[test]
fn backward_graph_of_a_chain_leaves_nothing_unexpanded() {
    let mut imps = chain();
    imps.push(extract_existence_factor_for_proposition(&jack("exciting")));
    let g = compute_backward_graph(&imps, &jack("rich")).unwrap();
    assert!(g.unexpanded.is_empty());
    assert_eq!(g.get_bfs_order().len(), g.all_nodes.len());
}

#[test]
fn backimplications_of_a_fact() {
    let imps = chain();
    let factors = extract_backimplications_from_proposition(&imps, &jack("rich")).unwrap();
    assert_eq!(factors.len(), 1);
    assert_eq!(factors[0].premise.search_string(), "[relation=exciting,sub=j]");
    assert_eq!(factors[0].conclusion.search_string(), "[relation=rich,sub=j]");
    assert!(extract_backimplications_from_proposition(&imps, &jack("exciting")).unwrap().is_empty());
    let f = extract_factor_for_proposition(&imps, jack("rich")).unwrap();
    assert_eq!(f.conjuncts.len(), 1);
}

#[test]
fn backward_graph_of_a_chain() {
    let mut imps = chain();
    imps.push(extract_existence_factor_for_proposition(&jack("exciting")));
    let g = compute_backward_graph(&imps, &jack("rich")).unwrap();
    let order: Vec<String> = g.get_bfs_order().iter().map(|n| n.debug_string()).collect();
    assert!(!order.is_empty());
    let pos = |s: &str| order.iter().position(|x| x == s).unwrap();
    assert!(pos("([relation=exciting,sub=j])") < pos("([relation=rich,sub=j])"));
    let roots: Vec<String> = g.get_roots().iter().map(|p| p.search_string()).collect();
    assert_eq!(roots, vec!["[relation=exist,sub=j]".to_string()]);
    let parents = g.parents_of_proposition(&jack("rich"));
    assert_eq!(parents.len(), 1);
    assert_eq!(g.children_of_conjunct(&parents[0]).len(), 1);
    let shared = PropositionGraph::new_shared(&imps, &jack("rich")).unwrap();
    assert_eq!(shared.get_bfs_order().len(), g.get_bfs_order().len());
}

#[test]
fn combinations_count_in_binary() {
    let nodes = vec![PropositionNode::from_single(&jack("a")), PropositionNode::from_single(&jack("b"))];
    let all = compute_each_combination(&nodes);
    assert_eq!(all, vec![vec![false, false], vec![true, false], vec![false, true], vec![true, true]]);
    assert_eq!(compute_each_combination(&vec![]), vec![Vec::<bool>::new()]);
}

#[test]
fn groups_of_backlinks() {
    let g = conjunction(vec![jack("a"), jack("b")]);
    let nodes = vec![PropositionNode::from_group(&g)];
    let groups = groups_from_backlinks(&nodes);
    assert_eq!(groups.len(), 1);
    assert_eq!(groups[0].search_string(), g.search_string());
    assert!(nodes[0].is_group() && !nodes[0].is_single());
}

#[test]
fn roots_leaves_and_fan_out() {
    let mut imps = chain();
    imps.push(extract_existence_factor_for_proposition(&jack("exciting")));
    let g = compute_backward_graph(&imps, &jack("rich")).unwrap();
    let exist = PropositionNode::from_single(&g.get_roots()[0]);
    let rich = PropositionNode::from_single(&jack("rich"));
    let exciting = PropositionNode::from_single(&jack("exciting"));
    assert!(is_root(&g, &exist) && !is_root(&g, &rich));
    assert!(is_leaf(&g, &rich) && !is_leaf(&g, &exciting));
    let order = g.get_bfs_order();
    let fan: Vec<String> = fan_out_order(&order, &exciting).iter().map(|n| n.debug_string()).collect();
    assert_eq!(fan.first().unwrap(), "([relation=exciting,sub=j])");
    assert_eq!(fan.last().unwrap(), &order[0].debug_string());
    assert!(fan_out_order(&order, &PropositionNode::from_single(&jack("absent"))).is_empty());
    let parents = g.parents_of_proposition(&jack("rich"));
    let (factors, holds) = build_factor_context_for_assignment(&g, &parents, &vec![true], &jack("rich"));
    assert_eq!(holds, vec![true]);
    assert_eq!(factors[0].inference.unique_key(), imps[0].unique_key());
    assert!(score_factor_assignment_conjunction(&vec![true, true]));
    assert!(!score_factor_assignment_conjunction(&vec![true, false]));
    assert!(score_factor_assignment_conjunction(&vec![]));
}

#[test]
fn backward_graph_of_a_cycle_ends_complete() {
    let x = variable(Domain::Jack);
    let mut imps = chain();
    imps.push(implication(
        conjunction(vec![predicate("rich".into(), vec![creators::sub(x.clone())])]),
        predicate("exciting".into(), vec![creators::sub(x)]),
        vec![sub_map()],
    ));
    let g = compute_backward_graph(&imps, &jack("rich")).unwrap();
    assert!(g.unexpanded.is_empty());
    let mut expanded: Vec<String> = g.expanded.iter().map(|p| p.search_string()).collect();
    expanded.sort();
    assert_eq!(expanded, vec!["[relation=exciting,sub=j]".to_string(), "[relation=rich,sub=j]".to_string()]);
    assert!(g.get_roots().is_empty());
    assert_eq!(g.all_nodes.len(), 4);
}

#[test]
fn premise_groups_of_a_built_graph() {
    let g = compute_backward_graph(&chain(), &jack("rich")).unwrap();
    assert!(g.is_premise_group(&conjunction(vec![jack("exciting")])));
    assert!(!g.is_premise_group(&conjunction(vec![jack("rich")])));
    let parents = g.parents_of_proposition(&jack("rich"));
    assert_eq!(parents.len(), 1);
    assert!(g.is_premise_group(&parents[0]));
}
