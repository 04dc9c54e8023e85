//! The facts reachable backward from a target lie in one finite set: each
//! premise term takes its role names and constants from the stored
//! implications and its other arguments from the fact it concludes, so all
//! of them are drawn from the names and arguments that the target and the
//! implications hold, with no more roles than the longest of those.

use vstd::prelude::*;
use crate::objects::{ArgumentView, ImplicationView, PropositionView, RoleMapView, RoleView};
use crate::ops::{ArgumentMapView, argument_lookup, premise_bindings, substitute};
use crate::search::{factors_for_pattern, factors_for_patterns, premise_terms_upto, search_predicates};
use crate::proposition_graph::{factors_of, reach_within, successors};

verus! {

broadcast use vstd::set_lib::lemma_set_subset_finite;

/// `p` has at most `l` roles, each with a name in `ns` and an argument in
/// `args`.
pub open spec fn drawn_from(p: PropositionView, ns: Set<Seq<char>>, args: Set<ArgumentView>, l: nat) -> bool {
    p.len() <= l && forall|k: int|
        0 <= k < p.len() ==> ns.contains((#[trigger] p[k]).name) && args.contains(p[k].arg)
}

proof fn lemma_bindings_drawn(c: PropositionView, m: RoleMapView, args: Set<ArgumentView>)
    requires
        forall|k: int| 0 <= k < c.len() ==> args.contains((#[trigger] c[k]).arg),
    ensures
        forall|i: int|
            0 <= i < premise_bindings(c, m).len() ==> args.contains((#[trigger] premise_bindings(c, m)[i]).1),
    decreases c.len(),
{
    if c.len() > 0 {
        let d = c.drop_last();
        assert forall|k: int| 0 <= k < d.len() implies args.contains((#[trigger] d[k]).arg) by {
            assert(d[k] == c[k]);
        }
        lemma_bindings_drawn(d, m, args);
        assert(c.last() == c[c.len() - 1]);
        let b = premise_bindings(c, m);
        let a = premise_bindings(d, m);
        assert forall|i: int| 0 <= i < b.len() implies args.contains((#[trigger] b[i]).1) by {
            if i < a.len() {
                assert(b[i] == a[i]);
            }
        }
    }
}

proof fn lemma_lookup_drawn(m: ArgumentMapView, n: Seq<char>, args: Set<ArgumentView>)
    requires
        forall|i: int| 0 <= i < m.len() ==> args.contains((#[trigger] m[i]).1),
    ensures
        argument_lookup(m, n) matches Some(a) ==> args.contains(a),
    decreases m.len(),
{
    if m.len() > 0 {
        let d = m.drop_last();
        assert forall|i: int| 0 <= i < d.len() implies args.contains((#[trigger] d[i]).1) by {
            assert(d[i] == m[i]);
        }
        lemma_lookup_drawn(d, n, args);
        assert(m.last() == m[m.len() - 1]);
    }
}

proof fn lemma_substitute_drawn(
    t: PropositionView,
    m: ArgumentMapView,
    ns: Set<Seq<char>>,
    args: Set<ArgumentView>,
    l: nat,
)
    requires
        drawn_from(t, ns, args, l),
        forall|i: int| 0 <= i < m.len() ==> args.contains((#[trigger] m[i]).1),
    ensures
        drawn_from(substitute(t, m), ns, args, l),
{
    let s = substitute(t, m);
    assert forall|k: int| 0 <= k < s.len() implies ns.contains((#[trigger] s[k]).name) && args.contains(s[k].arg) by {
        lemma_lookup_drawn(m, t[k].name, args);
    }
}

/// Every implication's premise terms are drawn from `ns`, `args` and `l`.
pub open spec fn premises_drawn(
    imps: Seq<ImplicationView>,
    ns: Set<Seq<char>>,
    args: Set<ArgumentView>,
    l: nat,
) -> bool {
    forall|n: int, j: int|
        0 <= n < imps.len() && 0 <= j < imps[n].premise.len() ==> drawn_from(
            #[trigger] imps[n].premise[j],
            ns,
            args,
            l,
        )
}

proof fn lemma_premise_terms_drawn(
    i: ImplicationView,
    c: PropositionView,
    j: nat,
    ns: Set<Seq<char>>,
    args: Set<ArgumentView>,
    l: nat,
)
    requires
        j <= i.premise.len(),
        forall|k: int| 0 <= k < i.premise.len() ==> drawn_from(#[trigger] i.premise[k], ns, args, l),
        forall|k: int| 0 <= k < c.len() ==> args.contains((#[trigger] c[k]).arg),
    ensures
        premise_terms_upto(i, c, j) matches Ok(ts) ==> forall|k: int|
            0 <= k < ts.len() ==> drawn_from(#[trigger] ts[k], ns, args, l),
    decreases j,
{
    if j > 0 {
        lemma_premise_terms_drawn(i, c, (j - 1) as nat, ns, args, l);
        let m = premise_bindings(c, i.role_maps[j - 1]);
        lemma_bindings_drawn(c, i.role_maps[j - 1], args);
        lemma_substitute_drawn(i.premise[j - 1], m, ns, args, l);
        if let Ok(ts) = premise_terms_upto(i, c, j) {
            if let Ok(a) = premise_terms_upto(i, c, (j - 1) as nat) {
                assert forall|k: int| 0 <= k < ts.len() implies drawn_from(#[trigger] ts[k], ns, args, l) by {
                    if k < a.len() {
                        assert(ts[k] == a[k]);
                    }
                }
            }
        }
    }
}

/// Every premise term of the factors is drawn from `ns`, `args` and `l`.
pub open spec fn factor_terms_drawn(
    fs: Seq<crate::search::FactorView>,
    ns: Set<Seq<char>>,
    args: Set<ArgumentView>,
    l: nat,
) -> bool {
    forall|i: int, j: int|
        0 <= i < fs.len() && 0 <= j < fs[i].premise.len() ==> drawn_from(#[trigger] fs[i].premise[j], ns, args, l)
}

proof fn lemma_pattern_drawn(
    imps: Seq<ImplicationView>,
    c: PropositionView,
    q: PropositionView,
    n: nat,
    ns: Set<Seq<char>>,
    args: Set<ArgumentView>,
    l: nat,
)
    requires
        n <= imps.len(),
        premises_drawn(imps, ns, args, l),
        forall|k: int| 0 <= k < c.len() ==> args.contains((#[trigger] c[k]).arg),
    ensures
        factors_for_pattern(imps, c, q, n) matches Ok(fs) ==> factor_terms_drawn(fs, ns, args, l),
    decreases n,
{
    if n > 0 {
        lemma_pattern_drawn(imps, c, q, (n - 1) as nat, ns, args, l);
        let i = imps[n - 1];
        assert forall|k: int| 0 <= k < i.premise.len() implies drawn_from(#[trigger] i.premise[k], ns, args, l) by {
            assert(imps[n - 1].premise[k] == i.premise[k]);
        }
        lemma_premise_terms_drawn(i, c, i.premise.len(), ns, args, l);
        if let Ok(fs) = factors_for_pattern(imps, c, q, n) {
            if let Ok(a) = factors_for_pattern(imps, c, q, (n - 1) as nat) {
                assert forall|x: int, j: int| 0 <= x < fs.len() && 0 <= j < fs[x].premise.len() implies drawn_from(
                    #[trigger] fs[x].premise[j],
                    ns,
                    args,
                    l,
                ) by {
                    if x < a.len() {
                        assert(fs[x] == a[x]);
                    }
                }
            }
        }
    }
}

proof fn lemma_patterns_drawn(
    imps: Seq<ImplicationView>,
    c: PropositionView,
    qs: Seq<PropositionView>,
    n: nat,
    ns: Set<Seq<char>>,
    args: Set<ArgumentView>,
    l: nat,
)
    requires
        n <= qs.len(),
        premises_drawn(imps, ns, args, l),
        forall|k: int| 0 <= k < c.len() ==> args.contains((#[trigger] c[k]).arg),
    ensures
        factors_for_patterns(imps, c, qs, n) matches Ok(fs) ==> factor_terms_drawn(fs, ns, args, l),
    decreases n,
{
    if n > 0 {
        lemma_patterns_drawn(imps, c, qs, (n - 1) as nat, ns, args, l);
        lemma_pattern_drawn(imps, c, qs[n - 1], imps.len(), ns, args, l);
        if let Ok(a) = factors_for_patterns(imps, c, qs, (n - 1) as nat) {
            if let Ok(b) = factors_for_pattern(imps, c, qs[n - 1], imps.len()) {
                let ab = a + b;
                assert forall|x: int, j: int| 0 <= x < ab.len() && 0 <= j < ab[x].premise.len() implies drawn_from(
                    #[trigger] ab[x].premise[j],
                    ns,
                    args,
                    l,
                ) by {
                    if x < a.len() {
                        assert(ab[x] == a[x]);
                    } else {
                        assert(ab[x] == b[x - a.len()]);
                    }
                }
            }
        }
    }
}

proof fn lemma_successors_drawn(
    imps: Seq<ImplicationView>,
    s: PropositionView,
    ns: Set<Seq<char>>,
    args: Set<ArgumentView>,
    l: nat,
)
    requires
        premises_drawn(imps, ns, args, l),
        forall|k: int| 0 <= k < s.len() ==> args.contains((#[trigger] s[k]).arg),
    ensures
        forall|t: PropositionView| #[trigger] successors(imps, s).contains(t) ==> drawn_from(t, ns, args, l),
{
    lemma_patterns_drawn(imps, s, search_predicates(s), search_predicates(s).len(), ns, args, l);
    assert forall|t: PropositionView| #[trigger] successors(imps, s).contains(t) implies drawn_from(t, ns, args, l) by {
        let fs = factors_of(imps, s);
        let (i, j) = choose|i: int, j: int|
            0 <= i < fs.len() && 0 <= j < fs[i].premise.len() && #[trigger] fs[i].premise[j] == t;
    }
}

/// Every fact within `d` backward steps of `target` is drawn from what the
/// target and the premise terms are drawn from.
proof fn lemma_reach_drawn(
    imps: Seq<ImplicationView>,
    target: PropositionView,
    d: nat,
    ns: Set<Seq<char>>,
    args: Set<ArgumentView>,
    l: nat,
)
    requires
        premises_drawn(imps, ns, args, l),
        drawn_from(target, ns, args, l),
    ensures
        forall|p: PropositionView| #[trigger] reach_within(imps, target, d).contains(p) ==> drawn_from(p, ns, args, l),
    decreases d,
{
    if d > 0 {
        let prev = reach_within(imps, target, (d - 1) as nat);
        lemma_reach_drawn(imps, target, (d - 1) as nat, ns, args, l);
        assert forall|p: PropositionView| #[trigger] reach_within(imps, target, d).contains(p) implies drawn_from(
            p,
            ns,
            args,
            l,
        ) by {
            if !prev.contains(p) {
                let s = choose|s: PropositionView| prev.contains(s) && #[trigger] successors(imps, s).contains(p);
                assert forall|k: int| 0 <= k < s.len() implies args.contains((#[trigger] s[k]).arg) by {
                    assert(drawn_from(s, ns, args, l));
                }
                lemma_successors_drawn(imps, s, ns, args, l);
            }
        }
    }
}

/// The roles of the given propositions, one after another.
pub open spec fn roles_of(ps: Seq<PropositionView>) -> Seq<RoleView>
    decreases ps.len(),
{
    if ps.len() == 0 {
        Seq::empty()
    } else {
        roles_of(ps.drop_last()) + ps.last()
    }
}

/// The most roles any of the given propositions has.
pub open spec fn longest(ps: Seq<PropositionView>) -> nat
    decreases ps.len(),
{
    if ps.len() == 0 {
        0
    } else if longest(ps.drop_last()) < ps.last().len() {
        ps.last().len()
    } else {
        longest(ps.drop_last())
    }
}

/// The roles of every premise term of the implications.
pub open spec fn premise_roles(imps: Seq<ImplicationView>) -> Seq<RoleView>
    decreases imps.len(),
{
    if imps.len() == 0 {
        Seq::empty()
    } else {
        premise_roles(imps.drop_last()) + roles_of(imps.last().premise)
    }
}

/// The most roles any premise term of the implications has.
pub open spec fn longest_premise(imps: Seq<ImplicationView>) -> nat
    decreases imps.len(),
{
    if imps.len() == 0 {
        0
    } else if longest_premise(imps.drop_last()) < longest(imps.last().premise) {
        longest(imps.last().premise)
    } else {
        longest_premise(imps.drop_last())
    }
}

/// The roles of the target and of every premise term.
pub open spec fn source_roles(imps: Seq<ImplicationView>, target: PropositionView) -> Seq<RoleView> {
    target + premise_roles(imps)
}

/// The role names that the target and the premise terms use.
pub open spec fn source_names(imps: Seq<ImplicationView>, target: PropositionView) -> Set<Seq<char>> {
    source_roles(imps, target).map_values(|r: RoleView| r.name).to_set()
}

/// The arguments that the target and the premise terms hold.
pub open spec fn source_args(imps: Seq<ImplicationView>, target: PropositionView) -> Set<ArgumentView> {
    source_roles(imps, target).map_values(|r: RoleView| r.arg).to_set()
}

/// The most roles the target or a premise term has.
pub open spec fn source_len(imps: Seq<ImplicationView>, target: PropositionView) -> nat {
    if target.len() < longest_premise(imps) {
        longest_premise(imps)
    } else {
        target.len()
    }
}

proof fn lemma_roles_of(ps: Seq<PropositionView>, j: int, k: int)
    requires
        0 <= j < ps.len(),
        0 <= k < ps[j].len(),
    ensures
        roles_of(ps).contains(ps[j][k]),
        ps[j].len() <= longest(ps),
    decreases ps.len(),
{
    let a = roles_of(ps.drop_last());
    if j < ps.len() - 1 {
        assert(ps.drop_last()[j] == ps[j]);
        lemma_roles_of(ps.drop_last(), j, k);
        let x = choose|x: int| 0 <= x < a.len() && a[x] == ps[j][k];
        assert(roles_of(ps)[x] == ps[j][k]);
    } else {
        assert(roles_of(ps)[a.len() + k] == ps.last()[k]);
    }
}

proof fn lemma_premise_roles(imps: Seq<ImplicationView>, n: int, j: int, k: int)
    requires
        0 <= n < imps.len(),
        0 <= j < imps[n].premise.len(),
        0 <= k < imps[n].premise[j].len(),
    ensures
        premise_roles(imps).contains(imps[n].premise[j][k]),
        imps[n].premise[j].len() <= longest_premise(imps),
    decreases imps.len(),
{
    let a = premise_roles(imps.drop_last());
    if n < imps.len() - 1 {
        assert(imps.drop_last()[n] == imps[n]);
        lemma_premise_roles(imps.drop_last(), n, j, k);
        let x = choose|x: int| 0 <= x < a.len() && a[x] == imps[n].premise[j][k];
        assert(premise_roles(imps)[x] == imps[n].premise[j][k]);
    } else {
        lemma_roles_of(imps.last().premise, j, k);
        let b = roles_of(imps.last().premise);
        let x = choose|x: int| 0 <= x < b.len() && b[x] == imps[n].premise[j][k];
        assert(premise_roles(imps)[a.len() + x] == b[x]);
    }
}

proof fn lemma_source_role(imps: Seq<ImplicationView>, target: PropositionView, x: int)
    requires
        0 <= x < source_roles(imps, target).len(),
    ensures
        source_names(imps, target).contains(source_roles(imps, target)[x].name),
        source_args(imps, target).contains(source_roles(imps, target)[x].arg),
{
    let rs = source_roles(imps, target);
    assert(rs.map_values(|r: RoleView| r.name)[x] == rs[x].name);
    assert(rs.map_values(|r: RoleView| r.arg)[x] == rs[x].arg);
}

/// The target and every premise term are drawn from the sources.
proof fn lemma_sources_drawn(imps: Seq<ImplicationView>, target: PropositionView)
    ensures
        drawn_from(target, source_names(imps, target), source_args(imps, target), source_len(imps, target)),
        premises_drawn(imps, source_names(imps, target), source_args(imps, target), source_len(imps, target)),
{
    let rs = source_roles(imps, target);
    assert forall|k: int| 0 <= k < target.len() implies source_names(imps, target).contains((#[trigger] target[k]).name)
        && source_args(imps, target).contains(target[k].arg) by {
        assert(rs[k] == target[k]);
        lemma_source_role(imps, target, k);
    }
    assert forall|n: int, j: int|
        0 <= n < imps.len() && 0 <= j < imps[n].premise.len() implies drawn_from(
        #[trigger] imps[n].premise[j],
        source_names(imps, target),
        source_args(imps, target),
        source_len(imps, target),
    ) by {
        let t = imps[n].premise[j];
        assert forall|k: int| 0 <= k < t.len() implies source_names(imps, target).contains((#[trigger] t[k]).name)
            && source_args(imps, target).contains(t[k].arg) by {
            lemma_premise_roles(imps, n, j, k);
            let pr = premise_roles(imps);
            let x = choose|x: int| 0 <= x < pr.len() && pr[x] == t[k];
            assert(rs[target.len() + x] == t[k]);
            lemma_source_role(imps, target, target.len() + x);
        }
        if t.len() > 0 {
            lemma_premise_roles(imps, n, j, 0);
        }
    }
}

/// The roles with a name from `ns` and an argument from `args`.
pub open spec fn role_set(ns: Set<Seq<char>>, args: Set<ArgumentView>) -> Set<RoleView> {
    ns.map(|n: Seq<char>| args.map(|a: ArgumentView| RoleView { name: n, arg: a })).flatten()
}

/// The propositions of at most `l` roles, each from `rs`.
pub open spec fn bounded_props(rs: Set<RoleView>, l: nat) -> Set<PropositionView> {
    Set::new(|p: PropositionView| p.len() <= l && forall|k: int| 0 <= k < p.len() ==> rs.contains(#[trigger] p[k]))
}

proof fn lemma_role_set_finite(ns: Set<Seq<char>>, args: Set<ArgumentView>)
    requires
        ns.finite(),
        args.finite(),
    ensures
        role_set(ns, args).finite(),
{
    let f = |n: Seq<char>| args.map(|a: ArgumentView| RoleView { name: n, arg: a });
    ns.lemma_map_finite(f);
    assert forall|x: Set<RoleView>| ns.map(f).contains(x) implies #[trigger] x.finite() by {
        let n = choose|n: Seq<char>| ns.contains(n) && x == f(n);
        args.lemma_map_finite(|a: ArgumentView| RoleView { name: n, arg: a });
    }
    ns.map(f).lemma_flatten_finite();
}

proof fn lemma_drawn_bounded(p: PropositionView, ns: Set<Seq<char>>, args: Set<ArgumentView>, l: nat)
    requires
        drawn_from(p, ns, args, l),
    ensures
        bounded_props(role_set(ns, args), l).contains(p),
{
    let f = |n: Seq<char>| args.map(|a: ArgumentView| RoleView { name: n, arg: a });
    assert forall|k: int| 0 <= k < p.len() implies role_set(ns, args).contains(#[trigger] p[k]) by {
        let r = p[k];
        assert(ns.map(f).contains(f(r.name)));
        assert(f(r.name).contains(RoleView { name: r.name, arg: r.arg }));
    }
}

proof fn lemma_bounded_finite(rs: Set<RoleView>, l: nat)
    requires
        rs.finite(),
    ensures
        bounded_props(rs, l).finite(),
    decreases l,
{
    if l == 0 {
        assert(bounded_props(rs, 0) =~= Set::<PropositionView>::empty().insert(Seq::<RoleView>::empty())) by {
            assert forall|p: PropositionView| bounded_props(rs, 0).contains(p) implies p == Seq::<RoleView>::empty() by {
                assert(p =~= Seq::<RoleView>::empty());
            }
        }
    } else {
        let prev = bounded_props(rs, (l - 1) as nat);
        lemma_bounded_finite(rs, (l - 1) as nat);
        let f = |r: RoleView| prev.map(|q: PropositionView| q.push(r));
        rs.lemma_map_finite(f);
        assert forall|x: Set<PropositionView>| rs.map(f).contains(x) implies #[trigger] x.finite() by {
            let r = choose|r: RoleView| rs.contains(r) && x == f(r);
            prev.lemma_map_finite(|q: PropositionView| q.push(r));
        }
        rs.map(f).lemma_flatten_finite();
        let ext = rs.map(f).flatten();
        assert forall|p: PropositionView| bounded_props(rs, l).contains(p) implies #[trigger] prev.union(ext).contains(p) by {
            if p.len() == l {
                let q = p.drop_last();
                let r = p.last();
                assert forall|k: int| 0 <= k < q.len() implies rs.contains(#[trigger] q[k]) by {
                    assert(q[k] == p[k]);
                }
                assert(prev.contains(q));
                assert(q.push(r) =~= p);
                assert(rs.contains(p[p.len() - 1]));
                assert(rs.map(f).contains(f(r)));
                assert(f(r).contains(p));
            } else {
                assert(prev.contains(p));
            }
        }
        assert(bounded_props(rs, l).subset_of(prev.union(ext)));
    }
}

/// The propositions drawn from the names, arguments and lengths of the
/// target and the premise terms.
pub open spec fn reach_universe(imps: Seq<ImplicationView>, target: PropositionView) -> Set<PropositionView> {
    bounded_props(role_set(source_names(imps, target), source_args(imps, target)), source_len(imps, target))
}

/// Every fact any number of backward steps from `target` lies in one finite
/// set.
pub proof fn lemma_reach_finite(imps: Seq<ImplicationView>, target: PropositionView)
    ensures
        reach_universe(imps, target).finite(),
        forall|d: nat, p: PropositionView|
            #[trigger] reach_within(imps, target, d).contains(p) ==> reach_universe(imps, target).contains(p),
{
    let ns = source_names(imps, target);
    let args = source_args(imps, target);
    let l = source_len(imps, target);
    lemma_role_set_finite(ns, args);
    lemma_bounded_finite(role_set(ns, args), l);
    lemma_sources_drawn(imps, target);
    assert forall|d: nat, p: PropositionView|
        #[trigger] reach_within(imps, target, d).contains(p) implies reach_universe(imps, target).contains(p) by {
        lemma_reach_drawn(imps, target, d, ns, args, l);
        lemma_drawn_bounded(p, ns, args, l);
    }
}

} // verus!
