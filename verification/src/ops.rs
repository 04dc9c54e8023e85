//! Moving between propositions and patterns: quantifying roles, reading the
//! arguments a conclusion passes to a premise term, and substituting them.

use vstd::prelude::*;
use crate::error::BayesError;
use crate::objects::{
    ArgumentView, FilledRole, FirstOrderArgument, Proposition, PropositionView, RoleMap,
    RoleMapView, RoleView, is_fact_view, quantified_argument, role_map_lookup,
    role_views,
};
use crate::text::{text_eq, views_of};

verus! {

/// The name of the role that holds a proposition's relation.
pub open spec fn relation_role_name() -> Seq<char> {
    "relation"@
}

/// The proposition with every role whose name is in `names` quantified,
/// except the relation, which is never quantified.
pub open spec fn quantify_named(p: PropositionView, names: Seq<Seq<char>>) -> PropositionView {
    p.map_values(
        |r: RoleView|
            if names.contains(r.name) && r.name != relation_role_name() {
                RoleView { name: r.name, arg: quantified_argument(r.arg) }
            } else {
                r
            },
    )
}

fn contains_text(names: &[String], x: &str) -> (r: bool)
    ensures
        r == views_of(names@).contains(x@),
{
    let mut i: usize = 0;
    while i < names.len()
        invariant
            0 <= i <= names.len(),
            forall|k: int| 0 <= k < i ==> (#[trigger] names@[k])@ != x@,
        decreases names.len() - i,
    {
        if text_eq(names[i].as_str(), x) {
            proof {
                assert(views_of(names@)[i as int] == x@);
            }
            return true;
        }
        i += 1;
    }
    proof {
        if views_of(names@).contains(x@) {
            let k = choose|k: int| 0 <= k < views_of(names@).len() && views_of(names@)[k] == x@;
            assert(names@[k]@ == x@);
        }
    }
    false
}

/// The proposition with the roles named in `roles` made variables; the
/// relation stays as it is.
pub fn convert_to_quantified(proposition: &Proposition, roles: &[String]) -> (r: Proposition)
    ensures
        r@ == quantify_named(proposition@, views_of(roles@)),
        r@.len() == proposition@.len(),
        forall|k: int|
            0 <= k < proposition@.len() && (#[trigger] proposition@[k]).name == relation_role_name()
                ==> r@[k] == proposition@[k],
{
    let mut result: Vec<FilledRole> = Vec::new();
    let mut i: usize = 0;
    while i < proposition.roles.len()
        invariant
            0 <= i <= proposition.roles.len(),
            result@.len() == i,
            forall|k: int|
                0 <= k < i ==> (#[trigger] result@[k])@ == quantify_named(
                    proposition@,
                    views_of(roles@),
                )[k],
        decreases proposition.roles.len() - i,
    {
        let crole = &proposition.roles[i];
        if contains_text(roles, crole.role_name.as_str()) && !text_eq(
            crole.role_name.as_str(),
            "relation",
        ) {
            result.push(crole.convert_to_quantified());
        } else {
            result.push(crole.duplicate());
        }
        i += 1;
    }
    proof {
        assert(role_views(result@) =~= quantify_named(proposition@, views_of(roles@)));
    }
    Proposition { roles: result }
}

/// Role names paired with the arguments that fill them; a later pair for
/// the same name overrides an earlier one.
#[derive(Clone, Debug)]
pub struct ArgumentMap {
    pub entries: Vec<(String, FirstOrderArgument)>,
}

/// The pairs of an argument map, abstractly.
pub type ArgumentMapView = Seq<(Seq<char>, ArgumentView)>;

/// The argument `name` is bound to: its last pair, if any.
pub open spec fn argument_lookup(m: ArgumentMapView, name: Seq<char>) -> Option<ArgumentView>
    decreases m.len(),
{
    if m.len() == 0 {
        None
    } else if m.last().0 == name {
        Some(m.last().1)
    } else {
        argument_lookup(m.drop_last(), name)
    }
}

impl View for ArgumentMap {
    type V = ArgumentMapView;

    open spec fn view(&self) -> ArgumentMapView {
        self.entries@.map_values(|e: (String, FirstOrderArgument)| (e.0@, e.1@))
    }
}

impl ArgumentMap {
    /// The map that binds nothing.
    pub fn new() -> (r: Self)
        ensures
            r@ == Seq::<(Seq<char>, ArgumentView)>::empty(),
    {
        ArgumentMap { entries: Vec::new() }
    }

    /// Binds `name` to `value`, replacing any earlier binding.
    pub fn insert(&mut self, name: String, value: FirstOrderArgument)
        ensures
            final(self)@ == old(self)@.push((name@, value@)),
    {
        let ghost prev = self@;
        self.entries.push((name, value));
        proof {
            assert(self@ =~= prev.push((name@, value@)));
        }
    }

    /// The argument `name` is bound to.
    pub fn get(&self, name: &str) -> (r: Option<&FirstOrderArgument>)
        ensures
            r is None <==> argument_lookup(self@, name@) is None,
            r matches Some(v) ==> argument_lookup(self@, name@) == Some(v@),
    {
        let mut i: usize = self.entries.len();
        proof {
            assert(self@.take(self@.len() as int) =~= self@);
        }
        while i > 0
            invariant
                0 <= i <= self.entries.len(),
                argument_lookup(self@, name@) == argument_lookup(self@.take(i as int), name@),
            decreases i,
        {
            proof {
                assert(self@.take(i as int).drop_last() =~= self@.take(i - 1));
                assert(self@.take(i as int).last() == self@[i - 1]);
            }
            if text_eq(self.entries[i - 1].0.as_str(), name) {
                return Some(&self.entries[i - 1].1);
            }
            i -= 1;
        }
        None
    }
}

/// Every bound argument is a constant.
pub open spec fn binds_constants(m: ArgumentMapView) -> bool {
    forall|i: int| 0 <= i < m.len() ==> (#[trigger] m[i]).1 is Constant
}

/// Every variable role of `p` that `m` binds is bound to a constant.
pub open spec fn binds_roles_to_constants(p: PropositionView, m: ArgumentMapView) -> bool {
    forall|k: int|
        0 <= k < p.len() && (#[trigger] p[k]).arg is Variable ==> match argument_lookup(
            m,
            p[k].name,
        ) {
            Some(a) => a is Constant,
            None => true,
        }
}

proof fn lemma_lookup_constant(m: ArgumentMapView, name: Seq<char>)
    requires
        binds_constants(m),
    ensures
        argument_lookup(m, name) matches Some(a) ==> a is Constant,
    decreases m.len(),
{
    if m.len() > 0 {
        assert(m.last() == m[m.len() - 1]);
        let t = m.drop_last();
        assert forall|i: int| 0 <= i < t.len() implies (#[trigger] t[i]).1 is Constant by {
            assert(t[i] == m[i]);
        }
        lemma_lookup_constant(t, name);
    }
}

/// A map that binds only constants binds every role of any pattern to a
/// constant.
pub proof fn lemma_binds_roles_to_constants(p: PropositionView, m: ArgumentMapView)
    requires
        binds_constants(m),
    ensures
        binds_roles_to_constants(p, m),
{
    assert forall|k: int| 0 <= k < p.len() && (#[trigger] p[k]).arg is Variable implies match argument_lookup(
        m,
        p[k].name,
    ) {
        Some(a) => a is Constant,
        None => true,
    } by {
        lemma_lookup_constant(m, p[k].name);
    }
}

/// The first variable role of `p` that `m` does not bind, if any.
pub open spec fn first_unbound(p: PropositionView, m: ArgumentMapView) -> Option<Seq<char>>
    decreases p.len(),
{
    if p.len() == 0 {
        None
    } else if p[0].arg is Variable && argument_lookup(m, p[0].name) is None {
        Some(p[0].name)
    } else {
        first_unbound(p.drop_first(), m)
    }
}

/// `p` with each variable role filled by the argument its name is bound to.
pub open spec fn substitute(p: PropositionView, m: ArgumentMapView) -> PropositionView {
    p.map_values(
        |r: RoleView|
            if r.arg is Variable {
                match argument_lookup(m, r.name) {
                    Some(a) => RoleView { name: r.name, arg: a },
                    None => r,
                }
            } else {
                r
            },
    )
}

proof fn lemma_first_unbound_prefix(p: PropositionView, m: ArgumentMapView, i: int)
    requires
        0 <= i <= p.len(),
        forall|k: int|
            0 <= k < i ==> !((#[trigger] p[k]).arg is Variable && argument_lookup(m, p[k].name) is None),
    ensures
        first_unbound(p, m) == first_unbound(p.skip(i), m),
    decreases i,
{
    if i == 0 {
        assert(p.skip(0) =~= p);
    } else {
        let q = p.drop_first();
        assert forall|k: int|
            0 <= k < i - 1 implies !((#[trigger] q[k]).arg is Variable && argument_lookup(
            m,
            q[k].name,
        ) is None) by {
            assert(q[k] == p[k + 1]);
        }
        assert(!(p[0].arg is Variable && argument_lookup(m, p[0].name) is None));
        lemma_first_unbound_prefix(q, m, i - 1);
        assert(q.skip(i - 1) =~= p.skip(i));
    }
}

/// The proposition that the pattern `predicate` becomes when each variable
/// role takes the argument that `role_map` binds to its name; an error
/// naming the first variable role that `role_map` does not bind.
pub fn convert_to_proposition(predicate: &Proposition, role_map: &ArgumentMap) -> (r: Result<
    Proposition,
    BayesError,
>)
    requires
        binds_roles_to_constants(predicate@, role_map@),
    ensures
        match r {
            Ok(p) => first_unbound(predicate@, role_map@) is None && p@ == substitute(
                predicate@,
                role_map@,
            ),
            Err(e) => first_unbound(predicate@, role_map@) matches Some(n) && e matches BayesError::SubstitutionNotFound(
                m,
            ) && m@ == n,
        },
{
    let mut result_roles: Vec<FilledRole> = Vec::new();
    let mut i: usize = 0;
    while i < predicate.roles.len()
        invariant
            0 <= i <= predicate.roles.len(),
            result_roles@.len() == i,
            forall|k: int|
                0 <= k < i ==> (#[trigger] result_roles@[k])@ == substitute(predicate@, role_map@)[k],
            forall|k: int|
                0 <= k < i ==> !((#[trigger] predicate@[k]).arg is Variable && argument_lookup(
                    role_map@,
                    predicate@[k].name,
                ) is None),
        decreases predicate.roles.len() - i,
    {
        let role = &predicate.roles[i];
        if role.argument.is_variable() {
            match role_map.get(role.role_name.as_str()) {
                Some(substitute) => {
                    result_roles.push(role.do_substitution(substitute.duplicate()));
                },
                None => {
                    proof {
                        lemma_first_unbound_prefix(predicate@, role_map@, i as int);
                        assert(predicate@.skip(i as int)[0] == predicate@[i as int]);
                    }
                    return Err(BayesError::SubstitutionNotFound(role.role_name.clone()));
                },
            }
        } else {
            result_roles.push(role.duplicate());
        }
        i += 1;
    }
    proof {
        lemma_first_unbound_prefix(predicate@, role_map@, i as int);
        assert(role_views(result_roles@) =~= substitute(predicate@, role_map@));
    }
    Ok(Proposition { roles: result_roles })
}

/// The pairs that `extract_premise_role_map` binds, in order: for each role
/// of `p` that the role map maps, the mapped name and the role's argument.
pub open spec fn premise_bindings(p: PropositionView, m: RoleMapView) -> ArgumentMapView
    decreases p.len(),
{
    if p.len() == 0 {
        Seq::empty()
    } else {
        premise_bindings(p.drop_last(), m) + match role_map_lookup(m, p.last().name) {
            Some(n) => seq![(n, p.last().arg)],
            None => Seq::empty(),
        }
    }
}

/// The arguments the fact `proposition` passes to a premise term: each of its
/// roles that `role_map` maps is bound, under the mapped name, to its argument.
pub fn extract_premise_role_map(proposition: &Proposition, role_map: &RoleMap) -> (r: ArgumentMap)
    requires
        is_fact_view(proposition@),
    ensures
        r@ == premise_bindings(proposition@, role_map@),
        binds_constants(r@),
{
    let mut result = ArgumentMap::new();
    let mut i: usize = 0;
    while i < proposition.roles.len()
        invariant
            0 <= i <= proposition.roles.len(),
            is_fact_view(proposition@),
            result@ == premise_bindings(proposition@.take(i as int), role_map@),
            binds_constants(result@),
        decreases proposition.roles.len() - i,
    {
        let crole = &proposition.roles[i];
        proof {
            assert(proposition@.take(i + 1).drop_last() =~= proposition@.take(i as int));
            assert(proposition@.take(i + 1).last() == proposition@[i as int]);
        }
        match role_map.get(crole.role_name.as_str()) {
            Some(premise_role_name) => {
                proof {
                    assert(proposition@[i as int].arg is Constant);
                }
                result.insert(premise_role_name.clone(), crole.argument.duplicate());
            },
            None => {},
        }
        proof {
            assert(result@ =~= premise_bindings(proposition@.take(i + 1), role_map@));
        }
        i += 1;
    }
    proof {
        assert(proposition@.take(proposition.roles.len() as int) =~= proposition@);
    }
    result
}

} // verus!
