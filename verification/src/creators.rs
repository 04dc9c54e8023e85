//! Short constructors for the objects of the model. A proposition over a
//! relation carries the relation as its first role, `relation`, filled by a
//! constant of the `Verb` domain.

use vstd::prelude::*;
use crate::objects::{
    ArgumentView, Conjunction, ConstantArgument, Domain, FilledRole, FirstOrderArgument,
    Implication, Proposition, PropositionView, RoleMap, RoleMapList, RoleView, VariableArgument,
    proposition_views, role_map_views, role_views,
};

verus! {

/// The role that names a proposition's relation.
pub open spec fn relation_role(function: Seq<char>) -> RoleView {
    RoleView { name: "relation"@, arg: ArgumentView::Constant(Domain::Verb, function) }
}

/// The proposition over `function` with the given further roles.
pub open spec fn proposition_spec(function: Seq<char>, roles: Seq<RoleView>) -> PropositionView {
    seq![relation_role(function)] + roles
}

/// The conjunction of `terms`.
pub fn conjunction(terms: Vec<Proposition>) -> (r: Conjunction)
    ensures
        r@ == proposition_views(terms@),
{
    Conjunction { terms }
}

/// The implication from `premise` to `conclusion` under the given role maps.
pub fn implication(premise: Conjunction, conclusion: Proposition, role_maps: Vec<RoleMap>) -> (r:
    Implication)
    ensures
        r@.premise == premise@,
        r@.conclusion == conclusion@,
        r@.role_maps == role_map_views(role_maps@),
{
    let role_maps = RoleMapList { role_maps };
    Implication { premise, conclusion, role_maps }
}

/// The proposition over the relation `function` with the given roles.
pub fn proposition(function: String, roles: Vec<FilledRole>) -> (r: Proposition)
    ensures
        r@ == proposition_spec(function@, role_views(roles@)),
{
    let mut all: Vec<FilledRole> = Vec::new();
    all.push(role(String::from_str("relation"), constant(Domain::Verb, function)));
    let mut roles = roles;
    let ghost given = role_views(roles@);
    all.append(&mut roles);
    proof {
        assert(role_views(all@) =~= proposition_spec(function@, given));
    }
    Proposition { roles: all }
}

/// The pattern over the relation `function` with the given roles; the same
/// shape as a proposition, its roles usually filled by variables.
pub fn predicate(function: String, roles: Vec<FilledRole>) -> (r: Proposition)
    ensures
        r@ == proposition_spec(function@, role_views(roles@)),
{
    proposition(function, roles)
}

/// The role `role_name` filled by `argument`.
pub fn role(role_name: String, argument: FirstOrderArgument) -> (r: FilledRole)
    ensures
        r@ == (RoleView { name: role_name@, arg: argument@ }),
{
    FilledRole { role_name, argument }
}

/// Any entity of `domain`.
pub fn variable(domain: Domain) -> (r: FirstOrderArgument)
    ensures
        r@ == ArgumentView::Variable(domain),
{
    FirstOrderArgument::Variable(VariableArgument { domain })
}

/// The entity `entity_id` of `domain`.
pub fn constant(domain: Domain, entity_id: String) -> (r: FirstOrderArgument)
    ensures
        r@ == ArgumentView::Constant(domain, entity_id@),
{
    FirstOrderArgument::Constant(ConstantArgument { domain, entity_id })
}

/// The `sub` role filled by `argument`.
pub fn sub(argument: FirstOrderArgument) -> (r: FilledRole)
    ensures
        r@ == (RoleView { name: "sub"@, arg: argument@ }),
{
    role(String::from_str("sub"), argument)
}

/// The `obj` role filled by `argument`.
pub fn obj(argument: FirstOrderArgument) -> (r: FilledRole)
    ensures
        r@ == (RoleView { name: "obj"@, arg: argument@ }),
{
    role(String::from_str("obj"), argument)
}

} // verus!
