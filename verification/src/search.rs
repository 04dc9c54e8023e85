//! Finding the implications that can conclude a given fact: the patterns the
//! fact matches (one or two of its argument roles quantified), the stored
//! implications whose conclusion is such a pattern, and the premise terms
//! each of them instantiates for the fact.

use vstd::prelude::*;
use crate::error::BayesError;
use crate::creators::relation_role;
use crate::objects::{
    Conjunction, Domain, FilledRole, FirstOrderArgument, Implication,
    ImplicationView, Proposition, PropositionView, RoleMap, RoleMapList, RoleMapView, RoleView,
    conjunction_text, is_fact_view, proposition_text, proposition_views, quantified_argument,
    role_views,
};
use crate::ops::{
    ArgumentMapView, argument_lookup, binds_constants, convert_to_proposition,
    convert_to_quantified, extract_premise_role_map, first_unbound, premise_bindings,
    quantify_named, substitute, lemma_binds_roles_to_constants,
};
use crate::objects::{RoleMapView as RoleMapV};
use crate::objects::role_map_lookup;
use crate::text::{text_eq, views_of};

verus! {

/// The `k`-element subsequences of `s`, in lexicographic order of positions.
pub open spec fn choose_spec(s: Seq<usize>, k: nat) -> Seq<Seq<usize>>
    decreases s.len(),
{
    if k == 0 {
        seq![Seq::empty()]
    } else if s.len() == 0 {
        Seq::empty()
    } else {
        choose_spec(s.drop_first(), (k - 1) as nat).map_values(|c: Seq<usize>| seq![s[0]] + c)
            + choose_spec(s.drop_first(), k)
    }
}

/// The views of a vector of index vectors.
pub open spec fn index_views(v: Seq<Vec<usize>>) -> Seq<Seq<usize>> {
    v.map_values(|c: Vec<usize>| c@)
}

/// `0, 1, ..., n - 1`.
pub open spec fn index_range(n: nat) -> Seq<usize> {
    Seq::new(n, |i: int| i as usize)
}

fn combine_from(input: &[usize], k: usize, start: usize) -> (res: Vec<Vec<usize>>)
    requires
        start <= input@.len(),
    ensures
        index_views(res@) == choose_spec(input@.skip(start as int), k as nat),
    decreases input@.len() - start,
{
    let ghost s = input@.skip(start as int);
    if k == 0 {
        let mut res: Vec<Vec<usize>> = Vec::new();
        res.push(Vec::new());
        proof {
            assert(index_views(res@) =~= seq![Seq::<usize>::empty()]);
        }
        return res;
    }
    if start == input.len() {
        let res: Vec<Vec<usize>> = Vec::new();
        proof {
            assert(s.len() == 0);
            assert(index_views(res@) =~= Seq::<Seq<usize>>::empty());
        }
        return res;
    }
    let first = input[start];
    proof {
        assert(s[0] == first);
        assert(s.drop_first() =~= input@.skip(start + 1));
    }
    let with_first = combine_from(input, k - 1, start + 1);
    let mut res: Vec<Vec<usize>> = Vec::new();
    let mut i: usize = 0;
    while i < with_first.len()
        invariant
            0 <= i <= with_first.len(),
            res@.len() == i,
            forall|j: int|
                0 <= j < i ==> (#[trigger] res@[j])@ == seq![first] + with_first@[j]@,
        decreases with_first.len() - i,
    {
        let mut c: Vec<usize> = Vec::new();
        c.push(first);
        let mut j: usize = 0;
        while j < with_first[i].len()
            invariant
                0 <= j <= with_first@[i as int]@.len(),
                0 <= i < with_first@.len(),
                c@ == seq![first] + with_first@[i as int]@.take(j as int),
            decreases with_first@[i as int]@.len() - j,
        {
            c.push(with_first[i][j]);
            proof {
                assert(with_first@[i as int]@.take(j + 1) =~= with_first@[i as int]@.take(
                    j as int,
                ).push(with_first@[i as int]@[j as int]));
            }
            j += 1;
        }
        proof {
            assert(with_first@[i as int]@.take(j as int) =~= with_first@[i as int]@);
        }
        res.push(c);
        i += 1;
    }
    let mut rest = combine_from(input, k, start + 1);
    let ghost head = index_views(res@);
    proof {
        assert(head =~= choose_spec(input@.skip(start + 1), (k - 1) as nat).map_values(
            |c: Seq<usize>| seq![first] + c,
        ));
    }
    res.append(&mut rest);
    proof {
        assert(index_views(res@) =~= head + choose_spec(input@.skip(start + 1), k as nat));
    }
    res
}

/// The `k`-element selections from `input`, each in input order, the
/// selections in lexicographic order of positions.
pub fn combine(input_array: &[usize], k: usize) -> (res: Vec<Vec<usize>>)
    ensures
        index_views(res@) == choose_spec(input_array@, k as nat),
{
    proof {
        assert(input_array@.skip(0) =~= input_array@);
    }
    combine_from(input_array, k, 0)
}

/// The `k`-element subsets of `0..n`, as increasing index vectors.
pub fn compute_choose_configurations(n: usize, k: usize) -> (res: Vec<Vec<usize>>)
    ensures
        index_views(res@) == choose_spec(index_range(n as nat), k as nat),
{
    let mut input_array: Vec<usize> = Vec::new();
    let mut i: usize = 0;
    while i < n
        invariant
            0 <= i <= n,
            input_array@ =~= index_range(i as nat),
        decreases n - i,
    {
        input_array.push(i);
        i += 1;
    }
    combine(input_array.as_slice(), k)
}

/// The elements of `roles` whose position is in `indices`, in order.
pub open spec fn select_indices(roles: Seq<Seq<char>>, indices: Seq<usize>) -> Seq<Seq<char>>
    decreases roles.len(),
{
    if roles.len() == 0 {
        Seq::empty()
    } else {
        select_indices(roles.drop_last(), indices) + if indices.contains(
            (roles.len() - 1) as usize,
        ) {
            seq![roles.last()]
        } else {
            Seq::empty()
        }
    }
}

fn contains_index(indices: &[usize], x: usize) -> (r: bool)
    ensures
        r == indices@.contains(x),
{
    let mut i: usize = 0;
    while i < indices.len()
        invariant
            0 <= i <= indices.len(),
            forall|k: int| 0 <= k < i ==> indices@[k] != x,
        decreases indices.len() - i,
    {
        if indices[i] == x {
            return true;
        }
        i += 1;
    }
    false
}

/// The roles at the given positions, in the order of `roles`.
pub fn extract_roles_from_indices(roles: &[String], indices: &[usize]) -> (res: Vec<String>)
    ensures
        views_of(res@) == select_indices(views_of(roles@), indices@),
{
    let mut res: Vec<String> = Vec::new();
    let mut i: usize = 0;
    let ghost all = views_of(roles@);
    while i < roles.len()
        invariant
            0 <= i <= roles.len(),
            all == views_of(roles@),
            views_of(res@) == select_indices(all.take(i as int), indices@),
        decreases roles.len() - i,
    {
        proof {
            assert(all.take(i + 1).drop_last() =~= all.take(i as int));
            assert(all.take(i + 1).last() == roles@[i as int]@);
        }
        if contains_index(indices, i) {
            res.push(roles[i].clone());
        }
        proof {
            assert(views_of(res@) =~= select_indices(all.take(i + 1), indices@));
        }
        i += 1;
    }
    proof {
        assert(all.take(roles.len() as int) =~= all);
    }
    res
}

/// The names of the roles other than the relation, in order.
pub open spec fn argument_names(p: PropositionView) -> Seq<Seq<char>>
    decreases p.len(),
{
    if p.len() == 0 {
        Seq::empty()
    } else {
        argument_names(p.drop_last()) + if p.last().name == "relation"@ {
            Seq::empty()
        } else {
            seq![p.last().name]
        }
    }
}

/// The names of the proposition's roles other than the relation, in order.
fn argument_role_names(proposition: &Proposition) -> (names: Vec<String>)
    ensures
        views_of(names@) == argument_names(proposition@),
{
    let ghost p = proposition@;
    let mut names: Vec<String> = Vec::new();
    let mut i: usize = 0;
    while i < proposition.roles.len()
        invariant
            0 <= i <= proposition.roles.len(),
            p == proposition@,
            views_of(names@) == argument_names(p.take(i as int)),
        decreases proposition.roles.len() - i,
    {
        proof {
            assert(p.take(i + 1).drop_last() =~= p.take(i as int));
            assert(p.take(i + 1).last() == p[i as int]);
        }
        let role = &proposition.roles[i];
        if !text_eq(role.role_name.as_str(), "relation") {
            let ghost before = names@;
            names.push(role.role_name.clone());
            proof {
                assert(views_of(names@) =~= views_of(before).push(role.role_name@));
            }
        } else {
            proof {
                assert(argument_names(p.take(i + 1)) =~= argument_names(p.take(i as int)));
            }
        }
        i += 1;
    }
    proof {
        assert(p.take(i as int) =~= p);
    }
    names
}

/// The patterns a fact matches: its argument roles (every role but the
/// relation), each one-role and then each two-role selection of them in
/// lexicographic order, quantified; the relation stays as it is.
pub open spec fn search_predicates(p: PropositionView) -> Seq<PropositionView> {
    let names = argument_names(p);
    (choose_spec(index_range(names.len()), 1) + choose_spec(index_range(names.len()), 2)).map_values(
        |c: Seq<usize>| quantify_named(p, select_indices(names, c)),
    )
}

proof fn lemma_choose_one_len(s: Seq<usize>)
    ensures
        choose_spec(s, 1).len() == s.len(),
    decreases s.len(),
{
    if s.len() > 0 {
        lemma_choose_one_len(s.drop_first());
        assert(choose_spec(s.drop_first(), 0).len() == 1);
        assert(choose_spec(s, 1).len() == choose_spec(s.drop_first(), 0).len() + choose_spec(s.drop_first(), 1).len());
    }
}

proof fn lemma_choose_two_len(s: Seq<usize>)
    ensures
        2 * choose_spec(s, 2).len() == s.len() * (s.len() - 1),
    decreases s.len(),
{
    if s.len() > 0 {
        let n = s.len() as int;
        lemma_choose_two_len(s.drop_first());
        lemma_choose_one_len(s.drop_first());
        assert(choose_spec(s, 2).len() == choose_spec(s.drop_first(), 1).len() + choose_spec(s.drop_first(), 2).len());
        assert(2 * (n - 1) + (n - 1) * (n - 2) == n * (n - 1)) by (nonlinear_arith);
    }
}

/// A fact with `n` argument roles is looked up under `n` patterns with one
/// of them quantified and `n (n - 1) / 2` with two: `n (n + 1) / 2` in all.
pub proof fn lemma_search_predicate_count(p: PropositionView)
    ensures
        2 * search_predicates(p).len() == argument_names(p).len() * (argument_names(p).len() + 1),
{
    let n = argument_names(p).len() as int;
    let r = index_range(argument_names(p).len());
    lemma_choose_one_len(r);
    lemma_choose_two_len(r);
    assert(2 * n + n * (n - 1) == n * (n + 1)) by (nonlinear_arith);
}

/// Every pattern a fact is looked up under is that fact with some of its
/// roles quantified: the same roles, in order, under the same names, the
/// relation untouched, and every other argument either kept or quantified.
pub proof fn lemma_search_predicates_shape(p: PropositionView)
    ensures
        forall|x: int|
            0 <= x < search_predicates(p).len() ==> {
                let q = #[trigger] search_predicates(p)[x];
                &&& q.len() == p.len()
                &&& forall|k: int|
                    0 <= k < p.len() ==> q[k].name == p[k].name && (q[k] == p[k] || (p[k].name != "relation"@
                        && q[k].arg == quantified_argument(p[k].arg)))
            },
{
}

/// The patterns under which implications that conclude `proposition` are found.
pub fn compute_search_predicates(proposition: &Proposition) -> (r: Result<Vec<Proposition>, BayesError>)
    ensures
        r matches Ok(v) && proposition_views(v@) == search_predicates(proposition@),
{
    let roles = argument_role_names(proposition);
    let num_roles = roles.len();
    let mut configurations = compute_choose_configurations(num_roles, 1);
    let mut configurations2 = compute_choose_configurations(num_roles, 2);
    let ghost configs = index_views(configurations@) + index_views(configurations2@);
    configurations.append(&mut configurations2);
    proof {
        assert(index_views(configurations@) =~= configs);
    }
    let mut result: Vec<Proposition> = Vec::new();
    let mut i: usize = 0;
    while i < configurations.len()
        invariant
            0 <= i <= configurations.len(),
            index_views(configurations@) == configs,
            configs == choose_spec(index_range(argument_names(proposition@).len()), 1) + choose_spec(
                index_range(argument_names(proposition@).len()),
                2,
            ),
            views_of(roles@) == argument_names(proposition@),
            result@.len() == i,
            forall|k: int|
                0 <= k < i ==> (#[trigger] result@[k])@ == search_predicates(proposition@)[k],
        decreases configurations.len() - i,
    {
        let quantified_roles = extract_roles_from_indices(
            roles.as_slice(),
            configurations[i].as_slice(),
        );
        let quantified = convert_to_quantified(proposition, quantified_roles.as_slice());
        proof {
            assert(configurations@[i as int]@ == configs[i as int]);
        }
        result.push(quantified);
        i += 1;
    }
    proof {
        assert(proposition_views(result@) =~= search_predicates(proposition@));
    }
    Ok(result)
}

/// What a proposition factor is, abstractly.
pub struct FactorView {
    pub premise: Seq<PropositionView>,
    pub conclusion: PropositionView,
    pub inference: ImplicationView,
}

/// A premise conjunction of propositions, the proposition it concludes, and
/// the implication that links them.
#[derive(Clone, Debug)]
pub struct PropositionFactor {
    pub premise: Conjunction,
    pub conclusion: Proposition,
    pub inference: Implication,
}

impl PropositionFactor {
    /// `premise -> conclusion`, with their search strings.
    pub fn debug_string(&self) -> (s: String)
        ensures
            s@ == conjunction_text(self@.premise) + " -> "@ + proposition_text(self@.conclusion),
    {
        let mut s = self.premise.search_string();
        s.append(" -> ");
        let c = self.conclusion.search_string();
        s.append(c.as_str());
        s
    }
}

impl View for PropositionFactor {
    type V = FactorView;

    open spec fn view(&self) -> FactorView {
        FactorView {
            premise: self.premise@,
            conclusion: self.conclusion@,
            inference: self.inference@,
        }
    }
}

/// The views of a vector of factors.
pub open spec fn factor_views(v: Seq<PropositionFactor>) -> Seq<FactorView> {
    v.map_values(|f: PropositionFactor| f@)
}

/// Each premise term has a role map.
pub open spec fn implication_well_formed(i: ImplicationView) -> bool {
    i.premise.len() <= i.role_maps.len()
}

/// The views of a vector of implications.
pub open spec fn implication_views(v: Seq<Implication>) -> Seq<ImplicationView> {
    v.map_values(|i: Implication| i@)
}

/// The first `j` premise terms of `i`, instantiated for the conclusion `c`;
/// the first unbound role name when one cannot be.
pub open spec fn premise_terms_upto(i: ImplicationView, c: PropositionView, j: nat) -> Result<
    Seq<PropositionView>,
    Seq<char>,
>
    decreases j,
{
    if j == 0 {
        Ok(Seq::empty())
    } else {
        match premise_terms_upto(i, c, (j - 1) as nat) {
            Err(e) => Err(e),
            Ok(a) => {
                let t = i.premise[j - 1];
                let m = premise_bindings(c, i.role_maps[j - 1]);
                match first_unbound(t, m) {
                    Some(n) => Err(n),
                    None => Ok(a.push(substitute(t, m))),
                }
            },
        }
    }
}

/// All premise terms of `i`, instantiated for the conclusion `c`.
pub open spec fn premise_terms(i: ImplicationView, c: PropositionView) -> Result<
    Seq<PropositionView>,
    Seq<char>,
> {
    premise_terms_upto(i, c, i.premise.len())
}

/// The factors for `c` from the first `n` implications whose conclusion is
/// the pattern `q`.
pub open spec fn factors_for_pattern(
    imps: Seq<ImplicationView>,
    c: PropositionView,
    q: PropositionView,
    n: nat,
) -> Result<Seq<FactorView>, Seq<char>>
    decreases n,
{
    if n == 0 {
        Ok(Seq::empty())
    } else {
        match factors_for_pattern(imps, c, q, (n - 1) as nat) {
            Err(e) => Err(e),
            Ok(a) => {
                let i = imps[n - 1];
                if proposition_text(i.conclusion) == proposition_text(q) {
                    match premise_terms(i, c) {
                        Err(e) => Err(e),
                        Ok(ts) => Ok(a.push(FactorView { premise: ts, conclusion: c, inference: i })),
                    }
                } else {
                    Ok(a)
                }
            },
        }
    }
}

/// The factors for `c` from the first `n` of the patterns `qs`.
pub open spec fn factors_for_patterns(
    imps: Seq<ImplicationView>,
    c: PropositionView,
    qs: Seq<PropositionView>,
    n: nat,
) -> Result<Seq<FactorView>, Seq<char>>
    decreases n,
{
    if n == 0 {
        Ok(Seq::empty())
    } else {
        match factors_for_patterns(imps, c, qs, (n - 1) as nat) {
            Err(e) => Err(e),
            Ok(a) => match factors_for_pattern(imps, c, qs[n - 1], imps.len()) {
                Err(e) => Err(e),
                Ok(b) => Ok(a + b),
            },
        }
    }
}

/// The factors that conclude the fact `c`: for each pattern `c` matches, in
/// order, each implication concluding that pattern, in order, with its
/// premise terms instantiated; the first unbound role name when a premise
/// term cannot be instantiated.
pub open spec fn backimplications(imps: Seq<ImplicationView>, c: PropositionView) -> Result<
    Seq<FactorView>,
    Seq<char>,
> {
    factors_for_patterns(imps, c, search_predicates(c), search_predicates(c).len())
}

proof fn lemma_premise_terms_err_stays(i: ImplicationView, c: PropositionView, j: nat, k: nat)
    requires
        j <= k,
        premise_terms_upto(i, c, j) is Err,
    ensures
        premise_terms_upto(i, c, k) == premise_terms_upto(i, c, j),
    decreases k - j,
{
    if j < k {
        lemma_premise_terms_err_stays(i, c, j, (k - 1) as nat);
    }
}

proof fn lemma_pattern_err_stays(
    imps: Seq<ImplicationView>,
    c: PropositionView,
    q: PropositionView,
    j: nat,
    k: nat,
)
    requires
        j <= k,
        factors_for_pattern(imps, c, q, j) is Err,
    ensures
        factors_for_pattern(imps, c, q, k) == factors_for_pattern(imps, c, q, j),
    decreases k - j,
{
    if j < k {
        lemma_pattern_err_stays(imps, c, q, j, (k - 1) as nat);
    }
}

proof fn lemma_patterns_err_stays(
    imps: Seq<ImplicationView>,
    c: PropositionView,
    qs: Seq<PropositionView>,
    j: nat,
    k: nat,
)
    requires
        j <= k,
        factors_for_patterns(imps, c, qs, j) is Err,
    ensures
        factors_for_patterns(imps, c, qs, k) == factors_for_patterns(imps, c, qs, j),
    decreases k - j,
{
    if j < k {
        lemma_patterns_err_stays(imps, c, qs, j, (k - 1) as nat);
    }
}

fn premise_terms_exec(implication: &Implication, conclusion: &Proposition) -> (r: Result<
    Vec<Proposition>,
    BayesError,
>)
    requires
        is_fact_view(conclusion@),
        implication_well_formed(implication@),
    ensures
        match r {
            Ok(v) => premise_terms(implication@, conclusion@) == Ok::<
                Seq<PropositionView>,
                Seq<char>,
            >(proposition_views(v@)),
            Err(e) => e matches BayesError::SubstitutionNotFound(n) && premise_terms(
                implication@,
                conclusion@,
            ) == Err::<Seq<PropositionView>, Seq<char>>(n@),
        },
{
    let mut terms: Vec<Proposition> = Vec::new();
    let mut j: usize = 0;
    proof {
        assert(proposition_views(terms@) =~= Seq::<PropositionView>::empty());
    }
    while j < implication.premise.terms.len()
        invariant
            0 <= j <= implication.premise.terms.len(),
            is_fact_view(conclusion@),
            implication_well_formed(implication@),
            premise_terms_upto(implication@, conclusion@, j as nat) == Ok::<
                Seq<PropositionView>,
                Seq<char>,
            >(proposition_views(terms@)),
        decreases implication.premise.terms.len() - j,
    {
        let extracted_mapping = extract_premise_role_map(
            conclusion,
            &implication.role_maps.role_maps[j],
        );
        let ghost before = proposition_views(terms@);
        proof {
            lemma_binds_roles_to_constants(implication@.premise[j as int], extracted_mapping@);
        }
        match convert_to_proposition(&implication.premise.terms[j], &extracted_mapping) {
            Ok(p) => {
                terms.push(p);
                proof {
                    assert(proposition_views(terms@) =~= before.push(
                        substitute(implication@.premise[j as int], extracted_mapping@),
                    ));
                }
            },
            Err(e) => {
                proof {
                    lemma_premise_terms_err_stays(
                        implication@,
                        conclusion@,
                        (j + 1) as nat,
                        implication@.premise.len(),
                    );
                }
                return Err(e);
            },
        }
        j += 1;
    }
    Ok(terms)
}

/// The factors that conclude the fact `conclusion`, found among
/// `implications` (the stored implications, each with a role map per
/// premise term).
pub fn extract_backimplications_from_proposition(
    implications: &Vec<Implication>,
    conclusion: &Proposition,
) -> (r: Result<Vec<PropositionFactor>, BayesError>)
    requires
        is_fact_view(conclusion@),
        forall|k: int|
            0 <= k < implications@.len() ==> implication_well_formed(#[trigger] implications@[k]@),
    ensures
        match r {
            Ok(v) => backimplications(implication_views(implications@), conclusion@) == Ok::<
                Seq<FactorView>,
                Seq<char>,
            >(factor_views(v@)),
            Err(e) => e matches BayesError::SubstitutionNotFound(n) && backimplications(
                implication_views(implications@),
                conclusion@,
            ) == Err::<Seq<FactorView>, Seq<char>>(n@),
        },
{
    let ghost imps = implication_views(implications@);
    let search_keys = match compute_search_predicates(conclusion) {
        Ok(keys) => keys,
        Err(e) => {
            return Err(e);
        },
    };
    let ghost qs = search_predicates(conclusion@);
    let mut backimplications_found: Vec<PropositionFactor> = Vec::new();
    let mut k: usize = 0;
    proof {
        assert(factor_views(backimplications_found@) =~= Seq::<FactorView>::empty());
    }
    while k < search_keys.len()
        invariant
            0 <= k <= search_keys.len(),
            proposition_views(search_keys@) == qs,
            qs == search_predicates(conclusion@),
            imps == implication_views(implications@),
            is_fact_view(conclusion@),
            forall|m: int|
                0 <= m < implications@.len() ==> implication_well_formed(
                    #[trigger] implications@[m]@,
                ),
            factors_for_patterns(imps, conclusion@, qs, k as nat) == Ok::<
                Seq<FactorView>,
                Seq<char>,
            >(factor_views(backimplications_found@)),
        decreases search_keys.len() - k,
    {
        let key_string = search_keys[k].search_string();
        let ghost q = qs[k as int];
        proof {
            assert(qs.len() == search_keys@.len());
        }
        let ghost before = factor_views(backimplications_found@);
        let mut found: Vec<PropositionFactor> = Vec::new();
        let mut n: usize = 0;
        proof {
            assert(search_keys@[k as int]@ == q);
            assert(factor_views(found@) =~= Seq::<FactorView>::empty());
        }
        while n < implications.len()
            invariant
                0 <= n <= implications.len(),
                imps == implication_views(implications@),
                is_fact_view(conclusion@),
                key_string@ == proposition_text(q),
                k < qs.len(),
                qs == search_predicates(conclusion@),
                q == qs[k as int],
                factors_for_patterns(imps, conclusion@, qs, k as nat) == Ok::<
                    Seq<FactorView>,
                    Seq<char>,
                >(before),
                forall|m: int|
                    0 <= m < implications@.len() ==> implication_well_formed(
                        #[trigger] implications@[m]@,
                    ),
                factors_for_pattern(imps, conclusion@, q, n as nat) == Ok::<
                    Seq<FactorView>,
                    Seq<char>,
                >(factor_views(found@)),
            decreases implications.len() - n,
        {
            let implication = &implications[n];
            let c = implication.conclusion.search_string();
            proof {
                assert(imps[n as int] == implication@);
            }
            if text_eq(c.as_str(), key_string.as_str()) {
                match premise_terms_exec(implication, conclusion) {
                    Ok(terms) => {
                        let ghost prev = factor_views(found@);
                        found.push(
                            PropositionFactor {
                                premise: Conjunction { terms },
                                conclusion: conclusion.duplicate(),
                                inference: implication.duplicate(),
                            },
                        );
                        proof {
                            assert(factor_views(found@) =~= prev.push(
                                FactorView {
                                    premise: proposition_views(found@.last().premise.terms@),
                                    conclusion: conclusion@,
                                    inference: implication@,
                                },
                            ));
                        }
                    },
                    Err(e) => {
                        proof {
                            assert(premise_terms(imps[n as int], conclusion@) is Err);
                            assert(proposition_text(imps[n as int].conclusion) == proposition_text(q));
                            assert(factors_for_pattern(imps, conclusion@, q, (n + 1) as nat) is Err);
                            lemma_pattern_err_stays(
                                imps,
                                conclusion@,
                                q,
                                (n + 1) as nat,
                                imps.len(),
                            );
                            assert(factors_for_patterns(imps, conclusion@, qs, (k + 1) as nat) is Err);
                            lemma_patterns_err_stays(
                                imps,
                                conclusion@,
                                qs,
                                (k + 1) as nat,
                                qs.len(),
                            );
                        }
                        return Err(e);
                    },
                }
            }
            n += 1;
        }
        proof {
            assert(imps.len() == implications@.len());
        }
        let ghost found_views = factor_views(found@);
        backimplications_found.append(&mut found);
        proof {
            assert(factor_views(backimplications_found@) =~= before + found_views);
        }
        k += 1;
    }
    Ok(backimplications_found)
}


/// A conclusion together with the factors that conclude it.
#[derive(Clone, Debug)]
pub struct Factor {
    pub conclusion: Proposition,
    pub conjuncts: Vec<PropositionFactor>,
}

/// The fact `conclusion` with the factors that conclude it.
pub fn extract_factor_for_proposition(implications: &Vec<Implication>, conclusion: Proposition) -> (r:
    Result<Factor, BayesError>)
    requires
        is_fact_view(conclusion@),
        forall|k: int|
            0 <= k < implications@.len() ==> implication_well_formed(#[trigger] implications@[k]@),
    ensures
        match r {
            Ok(f) => f.conclusion@ == conclusion@ && backimplications(
                implication_views(implications@),
                conclusion@,
            ) == Ok::<Seq<FactorView>, Seq<char>>(factor_views(f.conjuncts@)),
            Err(e) => e matches BayesError::SubstitutionNotFound(n) && backimplications(
                implication_views(implications@),
                conclusion@,
            ) == Err::<Seq<FactorView>, Seq<char>>(n@),
        },
{
    let implications_found = extract_backimplications_from_proposition(implications, &conclusion)?;
    Ok(Factor { conclusion, conjuncts: implications_found })
}

/// The name of the relation that every entity satisfies.
pub open spec fn existence_text() -> Seq<char> {
    "exist"@
}

/// The role named `relation`.
pub open spec fn is_relation_role(r: RoleView) -> bool {
    r.name == "relation"@
}

/// `p`'s other roles quantified, its relation replaced by existence.
pub open spec fn existence_premise(p: PropositionView) -> PropositionView {
    p.map_values(
        |r: RoleView|
            if is_relation_role(r) {
                relation_role(existence_text())
            } else {
                RoleView { name: r.name, arg: quantified_argument(r.arg) }
            },
    )
}

/// `p` with every role but its relation quantified.
pub open spec fn existence_conclusion(p: PropositionView) -> PropositionView {
    p.map_values(
        |r: RoleView|
            if is_relation_role(r) {
                r
            } else {
                RoleView { name: r.name, arg: quantified_argument(r.arg) }
            },
    )
}

/// Each role but the relation mapped to itself, in order.
pub open spec fn identity_role_map(p: PropositionView) -> RoleMapView
    decreases p.len(),
{
    if p.len() == 0 {
        Seq::empty()
    } else {
        identity_role_map(p.drop_last()) + if is_relation_role(p.last()) {
            Seq::empty()
        } else {
            seq![(p.last().name, p.last().name)]
        }
    }
}

/// The existence implication's role map maps every role of `p` but the
/// relation to itself, and holds nothing else: each of its entries pairs
/// the name of such a role with that same name.
pub proof fn lemma_identity_role_map(p: PropositionView)
    ensures
        forall|k: int|
            0 <= k < p.len() && !is_relation_role(#[trigger] p[k]) ==> identity_role_map(p).contains(
                (p[k].name, p[k].name),
            ),
        forall|x: int|
            0 <= x < identity_role_map(p).len() ==> (#[trigger] identity_role_map(p)[x]).0 == identity_role_map(
                p,
            )[x].1 && exists|k: int|
                0 <= k < p.len() && !is_relation_role(#[trigger] p[k]) && p[k].name == identity_role_map(p)[x].0,
    decreases p.len(),
{
    if p.len() > 0 {
        let d = p.drop_last();
        lemma_identity_role_map(d);
        let a = identity_role_map(d);
        let m = identity_role_map(p);
        assert forall|k: int| 0 <= k < p.len() && !is_relation_role(#[trigger] p[k]) implies m.contains((p[k].name, p[k].name)) by {
            if k < p.len() - 1 {
                assert(d[k] == p[k]);
                let x = choose|x: int| 0 <= x < a.len() && a[x] == (d[k].name, d[k].name);
                assert(m[x] == a[x]);
            } else {
                assert(m[a.len() as int] == (p[k].name, p[k].name));
            }
        }
        assert forall|x: int| 0 <= x < m.len() implies (#[trigger] m[x]).0 == m[x].1 && exists|k: int|
            0 <= k < p.len() && !is_relation_role(#[trigger] p[k]) && p[k].name == m[x].0 by {
            if x < a.len() {
                assert(m[x] == a[x]);
                let k = choose|k: int| 0 <= k < d.len() && !is_relation_role(#[trigger] d[k]) && d[k].name == a[x].0;
                assert(d[k] == p[k]);
            } else {
                assert(p[p.len() - 1] == p.last());
            }
        }
    }
}

/// `p` with its relation replaced by existence: the fact that its entities
/// exist.
pub open spec fn existence_of(p: PropositionView) -> PropositionView {
    p.map_values(|r: RoleView| if is_relation_role(r) { relation_role(existence_text()) } else { r })
}

/// No two roles of `p` have the same name.
pub open spec fn role_names_distinct(p: PropositionView) -> bool {
    forall|i: int, j: int| 0 <= i < j < p.len() ==> (#[trigger] p[i]).name != (#[trigger] p[j]).name
}

proof fn lemma_identity_lookup(p: PropositionView, n: Seq<char>)
    ensures
        (exists|k: int| 0 <= k < p.len() && !is_relation_role(#[trigger] p[k]) && p[k].name == n)
            ==> role_map_lookup(identity_role_map(p), n) == Some(n),
        n == "relation"@ ==> role_map_lookup(identity_role_map(p), n) is None,
{
    lemma_identity_role_map(p);
    lemma_lookup_pairs(identity_role_map(p), n);
    if n == "relation"@ {
        let m = identity_role_map(p);
        assert forall|x: int| 0 <= x < m.len() implies (#[trigger] m[x]).0 != n by {
            let k = choose|k: int| 0 <= k < p.len() && !is_relation_role(#[trigger] p[k]) && p[k].name == m[x].0;
        }
    }
    if exists|k: int| 0 <= k < p.len() && !is_relation_role(#[trigger] p[k]) && p[k].name == n {
        let k = choose|k: int| 0 <= k < p.len() && !is_relation_role(#[trigger] p[k]) && p[k].name == n;
        let m = identity_role_map(p);
        let x = choose|x: int| 0 <= x < m.len() && m[x] == (p[k].name, p[k].name);
        assert(m[x].0 == n);
    }
}

proof fn lemma_lookup_pairs(m: RoleMapView, n: Seq<char>)
    requires
        forall|x: int| 0 <= x < m.len() ==> (#[trigger] m[x]).0 == m[x].1,
    ensures
        (exists|x: int| 0 <= x < m.len() && (#[trigger] m[x]).0 == n) ==> role_map_lookup(m, n) == Some(n),
        (forall|x: int| 0 <= x < m.len() ==> (#[trigger] m[x]).0 != n) ==> role_map_lookup(m, n) is None,
    decreases m.len(),
{
    if m.len() > 0 {
        let t = m.drop_first();
        assert forall|x: int| 0 <= x < t.len() implies (#[trigger] t[x]).0 == t[x].1 by {
            assert(t[x] == m[x + 1]);
        }
        lemma_lookup_pairs(t, n);
        if m[0].0 != n {
            if exists|x: int| 0 <= x < m.len() && (#[trigger] m[x]).0 == n {
                let x = choose|x: int| 0 <= x < m.len() && (#[trigger] m[x]).0 == n;
                assert(t[x - 1] == m[x]);
            }
            if forall|x: int| 0 <= x < m.len() ==> (#[trigger] m[x]).0 != n {
                assert forall|x: int| 0 <= x < t.len() implies (#[trigger] t[x]).0 != n by {
                    assert(t[x] == m[x + 1]);
                }
            }
        }
    }
}

/// The arguments a fact passes through its own existence role map: each
/// role but the relation bound, under its name, to its argument.
proof fn lemma_existence_bindings(p: PropositionView, j: nat)
    requires
        j <= p.len(),
        role_names_distinct(p),
    ensures
        forall|k: int|
            0 <= k < j && !is_relation_role(#[trigger] p[k]) ==> argument_lookup(
                premise_bindings(p.take(j as int), identity_role_map(p)),
                p[k].name,
            ) == Some(p[k].arg),
    decreases j,
{
    if j > 0 {
        lemma_existence_bindings(p, (j - 1) as nat);
        let c = p.take(j as int);
        let m = identity_role_map(p);
        assert(c.drop_last() =~= p.take(j - 1));
        assert(c.last() == p[j - 1]);
        let prev = premise_bindings(p.take(j - 1), m);
        lemma_identity_lookup(p, p[j - 1].name);
        assert forall|k: int| 0 <= k < j && !is_relation_role(#[trigger] p[k]) implies argument_lookup(
            premise_bindings(c, m),
            p[k].name,
        ) == Some(p[k].arg) by {
            if is_relation_role(p[j - 1]) {
                assert(premise_bindings(c, m) =~= prev);
            } else {
                let b = prev + seq![(p[j - 1].name, p[j - 1].arg)];
                assert(premise_bindings(c, m) =~= b);
                assert(b.drop_last() =~= prev);
                if k < j - 1 {
                    assert(p[k].name != p[j - 1].name);
                }
            }
        }
    }
}

proof fn lemma_all_bound(t: PropositionView, m: ArgumentMapView)
    requires
        forall|k: int| 0 <= k < t.len() && (#[trigger] t[k]).arg is Variable ==> argument_lookup(m, t[k].name) is Some,
    ensures
        first_unbound(t, m) is None,
    decreases t.len(),
{
    if t.len() > 0 {
        let d = t.drop_first();
        assert forall|k: int| 0 <= k < d.len() && (#[trigger] d[k]).arg is Variable implies argument_lookup(m, d[k].name) is Some by {
            assert(d[k] == t[k + 1]);
        }
        lemma_all_bound(d, m);
    }
}

/// Instantiated for a proposition whose roles have distinct names, the
/// premise of its existence implication is that proposition with its
/// relation replaced by existence: the instantiation always succeeds.
pub proof fn lemma_existence_premise_instantiates(p: PropositionView)
    requires
        role_names_distinct(p),
    ensures
        premise_terms(existence_implication(p), p) == Ok::<Seq<PropositionView>, Seq<char>>(seq![existence_of(p)]),
{
    let i = existence_implication(p);
    let m = identity_role_map(p);
    let b = premise_bindings(p, m);
    let t = existence_premise(p);
    lemma_existence_bindings(p, p.len());
    assert(p.take(p.len() as int) =~= p);
    reveal_strlit("relation");
    assert forall|k: int| 0 <= k < t.len() && (#[trigger] t[k]).arg is Variable implies argument_lookup(b, t[k].name) is Some by {
        assert(!is_relation_role(p[k]));
    }
    lemma_all_bound(t, b);
    assert(substitute(t, b) =~= existence_of(p)) by {
        assert forall|k: int| 0 <= k < p.len() implies substitute(t, b)[k] == existence_of(p)[k] by {
            if !is_relation_role(p[k]) {
                assert(argument_lookup(b, p[k].name) == Some(p[k].arg));
            }
        }
    }
    assert(i.premise[0] == t);
    assert(i.role_maps[0] == m);
    assert(premise_terms_upto(i, p, 0) == Ok::<Seq<PropositionView>, Seq<char>>(Seq::empty()));
    assert(Seq::<PropositionView>::empty().push(existence_of(p)) =~= seq![existence_of(p)]);
}

/// The implication by which the entities' existence concludes `p`'s
/// pattern: its premise says the same entities exist, its conclusion is `p`
/// with its arguments quantified, each role mapped to itself.
pub open spec fn existence_implication(p: PropositionView) -> ImplicationView {
    ImplicationView {
        premise: seq![existence_premise(p)],
        conclusion: existence_conclusion(p),
        role_maps: seq![identity_role_map(p)],
    }
}

/// The implication from the existence of `proposition`'s entities to
/// `proposition`'s pattern, which makes existence facts the roots of the
/// proposition graph.
pub fn extract_existence_factor_for_proposition(proposition: &Proposition) -> (r: Implication)
    ensures
        r@ == existence_implication(proposition@),
{
    let mut premise_roles: Vec<FilledRole> = Vec::new();
    let mut conclusion_roles: Vec<FilledRole> = Vec::new();
    let mut pairs: Vec<(String, String)> = Vec::new();
    let ghost p = proposition@;
    let mut i: usize = 0;
    while i < proposition.roles.len()
        invariant
            0 <= i <= proposition.roles.len(),
            p == proposition@,
            premise_roles@.len() == i,
            conclusion_roles@.len() == i,
            forall|k: int| 0 <= k < i ==> (#[trigger] premise_roles@[k])@ == existence_premise(p)[k],
            forall|k: int|
                0 <= k < i ==> (#[trigger] conclusion_roles@[k])@ == existence_conclusion(p)[k],
            pairs@.map_values(|e: (String, String)| (e.0@, e.1@)) == identity_role_map(
                p.take(i as int),
            ),
        decreases proposition.roles.len() - i,
    {
        let role = &proposition.roles[i];
        let ghost before = pairs@.map_values(|e: (String, String)| (e.0@, e.1@));
        proof {
            assert(p.take(i + 1).drop_last() =~= p.take(i as int));
            assert(p.take(i + 1).last() == p[i as int]);
        }
        if text_eq(role.role_name.as_str(), "relation") {
            premise_roles.push(
                FilledRole {
                    role_name: role.role_name.clone(),
                    argument: FirstOrderArgument::Constant(
                        crate::objects::ConstantArgument {
                            domain: Domain::Verb,
                            entity_id: String::from_str("exist"),
                        },
                    ),
                },
            );
            conclusion_roles.push(role.duplicate());
        } else {
            premise_roles.push(role.convert_to_quantified());
            conclusion_roles.push(role.convert_to_quantified());
            pairs.push((role.role_name.clone(), role.role_name.clone()));
        }
        proof {
            assert(pairs@.map_values(|e: (String, String)| (e.0@, e.1@)) =~= identity_role_map(
                p.take(i + 1),
            ));
        }
        i += 1;
    }
    proof {
        assert(p.take(proposition.roles.len() as int) =~= p);
        assert(role_views(premise_roles@) =~= existence_premise(p));
        assert(role_views(conclusion_roles@) =~= existence_conclusion(p));
    }
    let mut terms: Vec<Proposition> = Vec::new();
    terms.push(Proposition { roles: premise_roles });
    let mut maps: Vec<RoleMap> = Vec::new();
    maps.push(RoleMap { role_map: pairs });
    let r = Implication {
        premise: Conjunction { terms },
        conclusion: Proposition { roles: conclusion_roles },
        role_maps: RoleMapList { role_maps: maps },
    };
    proof {
        assert(r@.premise =~= seq![existence_premise(p)]);
        assert(r@.role_maps =~= seq![identity_role_map(p)]);
    }
    r
}


proof fn lemma_bindings_constant(c: PropositionView, m: RoleMapV)
    requires
        is_fact_view(c),
    ensures
        binds_constants(premise_bindings(c, m)),
    decreases c.len(),
{
    if c.len() > 0 {
        let d = c.drop_last();
        assert forall|i: int| 0 <= i < d.len() implies (#[trigger] d[i]).arg is Constant by {
            assert(d[i] == c[i]);
        }
        lemma_bindings_constant(d, m);
        assert(c.last() == c[c.len() - 1]);
    }
}

proof fn lemma_lookup_constant(m: ArgumentMapView, n: Seq<char>)
    requires
        binds_constants(m),
    ensures
        argument_lookup(m, n) matches Some(a) ==> a is Constant,
    decreases m.len(),
{
    if m.len() > 0 {
        let d = m.drop_last();
        assert forall|i: int| 0 <= i < d.len() implies (#[trigger] d[i]).1 is Constant by {
            assert(d[i] == m[i]);
        }
        lemma_lookup_constant(d, n);
        assert(m.last() == m[m.len() - 1]);
    }
}

proof fn lemma_first_unbound_none(t: PropositionView, m: ArgumentMapView, k: int)
    requires
        first_unbound(t, m) is None,
        0 <= k < t.len(),
        t[k].arg is Variable,
    ensures
        argument_lookup(m, t[k].name) is Some,
    decreases t.len(),
{
    if k > 0 {
        lemma_first_unbound_none(t.drop_first(), m, k - 1);
    }
}

proof fn lemma_substitute_fact(t: PropositionView, m: ArgumentMapView)
    requires
        first_unbound(t, m) is None,
        binds_constants(m),
    ensures
        is_fact_view(substitute(t, m)),
{
    assert forall|k: int| 0 <= k < substitute(t, m).len() implies (#[trigger] substitute(t, m)[k]).arg is Constant by {
        if t[k].arg is Variable {
            lemma_first_unbound_none(t, m, k);
            lemma_lookup_constant(m, t[k].name);
        }
    }
}

/// Every premise term has only constants.
pub open spec fn premises_are_facts(fs: Seq<FactorView>) -> bool {
    forall|i: int, j: int|
        0 <= i < fs.len() && 0 <= j < fs[i].premise.len() ==> is_fact_view(#[trigger] fs[i].premise[j])
}

proof fn lemma_premise_terms_facts(i: ImplicationView, c: PropositionView, j: nat)
    requires
        is_fact_view(c),
        j <= i.premise.len(),
        premise_terms_upto(i, c, j) is Ok,
    ensures
        premise_terms_upto(i, c, j) matches Ok(ts) ==> forall|k: int| 0 <= k < ts.len() ==> is_fact_view(#[trigger] ts[k]),
    decreases j,
{
    if j > 0 {
        lemma_premise_terms_facts(i, c, (j - 1) as nat);
        let m = premise_bindings(c, i.role_maps[j - 1]);
        lemma_bindings_constant(c, i.role_maps[j - 1]);
        if first_unbound(i.premise[j - 1], m) is None {
            lemma_substitute_fact(i.premise[j - 1], m);
        }
    }
}

proof fn lemma_pattern_facts(imps: Seq<ImplicationView>, c: PropositionView, q: PropositionView, n: nat)
    requires
        is_fact_view(c),
        n <= imps.len(),
        factors_for_pattern(imps, c, q, n) is Ok,
    ensures
        factors_for_pattern(imps, c, q, n) matches Ok(fs) ==> premises_are_facts(fs) && forall|k: int| 0 <= k < fs.len() ==> (#[trigger] fs[k]).conclusion == c,
    decreases n,
{
    if n > 0 {
        lemma_pattern_facts(imps, c, q, (n - 1) as nat);
        let i = imps[n - 1];
        if premise_terms(i, c) is Ok {
            lemma_premise_terms_facts(i, c, i.premise.len());
        }
        if let Ok(fs) = factors_for_pattern(imps, c, q, n) {
            if let Ok(a) = factors_for_pattern(imps, c, q, (n - 1) as nat) {
                assert forall|x: int, j: int| 0 <= x < fs.len() && 0 <= j < fs[x].premise.len() implies is_fact_view(
                    #[trigger] fs[x].premise[j],
                ) by {
                    if x < a.len() {
                        assert(fs[x] == a[x]);
                        assert(is_fact_view(a[x].premise[j]));
                    } else if let Ok(ts) = premise_terms(i, c) {
                        assert(fs[x].premise == ts);
                        assert(is_fact_view(ts[j]));
                    }
                }
                assert forall|k: int| 0 <= k < fs.len() implies (#[trigger] fs[k]).conclusion == c by {
                    if k < a.len() {
                        assert(fs[k] == a[k]);
                    }
                }
            }
        }
    }
}

proof fn lemma_patterns_facts(imps: Seq<ImplicationView>, c: PropositionView, qs: Seq<PropositionView>, n: nat)
    requires
        is_fact_view(c),
        n <= qs.len(),
        factors_for_patterns(imps, c, qs, n) is Ok,
    ensures
        factors_for_patterns(imps, c, qs, n) matches Ok(fs) ==> premises_are_facts(fs) && forall|k: int| 0 <= k < fs.len() ==> (#[trigger] fs[k]).conclusion == c,
    decreases n,
{
    if n > 0 {
        lemma_patterns_facts(imps, c, qs, (n - 1) as nat);
        lemma_pattern_facts(imps, c, qs[n - 1], imps.len());
        if let Ok(a) = factors_for_patterns(imps, c, qs, (n - 1) as nat) {
            if let Ok(b) = factors_for_pattern(imps, c, qs[n - 1], imps.len()) {
                let ab = a + b;
                assert forall|i: int, j: int| 0 <= i < ab.len() && 0 <= j < ab[i].premise.len() implies is_fact_view(#[trigger] ab[i].premise[j]) by {
                    if i < a.len() {
                        assert(ab[i] == a[i]);
                        assert(is_fact_view(a[i].premise[j]));
                    } else {
                        assert(ab[i] == b[i - a.len()]);
                        assert(is_fact_view(b[i - a.len()].premise[j]));
                    }
                }
                assert forall|k: int| 0 <= k < ab.len() implies (#[trigger] ab[k]).conclusion == c by {
                    if k < a.len() {
                        assert(ab[k] == a[k]);
                    } else {
                        assert(ab[k] == b[k - a.len()]);
                    }
                }
            }
        }
    }
}

/// The factors that conclude a fact have facts for premise terms, and
/// conclude that fact.
pub proof fn lemma_backimplications_facts(imps: Seq<ImplicationView>, c: PropositionView)
    requires
        is_fact_view(c),
    ensures
        backimplications(imps, c) matches Ok(fs) ==> premises_are_facts(fs) && forall|k: int| 0 <= k < fs.len() ==> (#[trigger] fs[k]).conclusion == c,
{
    if backimplications(imps, c) is Ok {
        lemma_patterns_facts(imps, c, search_predicates(c), search_predicates(c).len());
    }
}

} // verus!
