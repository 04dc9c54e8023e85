//! The first-order objects of the model: typed arguments, filled roles,
//! propositions, conjunctions, role maps and implications, with the search
//! strings under which they are stored and found again.

use vstd::prelude::*;
use crate::text::{join_spec, join_strings, sort_strings, sort_texts, text_eq, views_of};

verus! {

/// Whether an argument names an entity or stands for any entity of a domain.
#[derive(Clone, Copy, Debug, PartialEq, Eq, Hash, Structural)]
pub enum ArgumentType {
    Constant,
    Variable,
}

/// The types of entities.
#[derive(Clone, Copy, Debug, PartialEq, Eq, Hash, Structural)]
pub enum Domain {
    Jack,
    Jill,
    Verb,
}

/// The name of a domain.
pub open spec fn domain_text(d: Domain) -> Seq<char> {
    match d {
        Domain::Jack => "Jack"@,
        Domain::Jill => "Jill"@,
        Domain::Verb => "Verb"@,
    }
}

/// The domain with the given name, if there is one.
pub open spec fn domain_from_text(t: Seq<char>) -> Option<Domain> {
    if t == "Jack"@ {
        Some(Domain::Jack)
    } else if t == "Jill"@ {
        Some(Domain::Jill)
    } else if t == "Verb"@ {
        Some(Domain::Verb)
    } else {
        None
    }
}

impl Domain {
    /// The domain named `s`, or `None` when no domain has that name.
    pub fn from_str(s: &str) -> (r: Option<Domain>)
        ensures
            r == domain_from_text(s@),
    {
        if text_eq(s, "Jack") {
            Some(Domain::Jack)
        } else if text_eq(s, "Jill") {
            Some(Domain::Jill)
        } else if text_eq(s, "Verb") {
            Some(Domain::Verb)
        } else {
            None
        }
    }

    /// The domain's name.
    pub fn to_string(&self) -> (s: String)
        ensures
            s@ == domain_text(*self),
    {
        match self {
            Domain::Jack => String::from_str("Jack"),
            Domain::Jill => String::from_str("Jill"),
            Domain::Verb => String::from_str("Verb"),
        }
    }
}

/// What an argument is, abstractly.
pub enum ArgumentView {
    Constant(Domain, Seq<char>),
    Variable(Domain),
}

/// What a filled role is, abstractly.
pub struct RoleView {
    pub name: Seq<char>,
    pub arg: ArgumentView,
}

/// A proposition is the sequence of its roles.
pub type PropositionView = Seq<RoleView>;

/// A named entity of a domain.
#[derive(Clone, Debug, PartialEq, Eq, Hash)]
pub struct ConstantArgument {
    pub domain: Domain,
    pub entity_id: String,
}

/// Any entity of a domain.
#[derive(Clone, Copy, Debug, PartialEq, Eq, Hash, Structural)]
pub struct VariableArgument {
    pub domain: Domain,
}

/// The argument that fills a role.
#[derive(Clone, Debug, PartialEq, Eq, Hash)]
pub enum FirstOrderArgument {
    Constant(ConstantArgument),
    Variable(VariableArgument),
}

impl View for FirstOrderArgument {
    type V = ArgumentView;

    open spec fn view(&self) -> ArgumentView {
        match self {
            FirstOrderArgument::Constant(c) => ArgumentView::Constant(c.domain, c.entity_id@),
            FirstOrderArgument::Variable(v) => ArgumentView::Variable(v.domain),
        }
    }
}

/// The search text of an argument: the entity's id, or `?` and the domain.
pub open spec fn argument_text(a: ArgumentView) -> Seq<char> {
    match a {
        ArgumentView::Constant(_, id) => id,
        ArgumentView::Variable(d) => "?"@ + domain_text(d),
    }
}

/// The argument with a constant replaced by a variable of its domain.
pub open spec fn quantified_argument(a: ArgumentView) -> ArgumentView {
    match a {
        ArgumentView::Constant(d, _) => ArgumentView::Variable(d),
        ArgumentView::Variable(d) => ArgumentView::Variable(d),
    }
}

impl ConstantArgument {
    pub fn new(domain: Domain, entity_id: String) -> (r: Self)
        ensures
            r.domain == domain,
            r.entity_id@ == entity_id@,
    {
        ConstantArgument { domain, entity_id }
    }

    /// The entity's id.
    pub fn search_string(&self) -> (s: String)
        ensures
            s@ == self.entity_id@,
    {
        self.entity_id.clone()
    }
}

impl VariableArgument {
    pub fn new(domain: Domain) -> (r: Self)
        ensures
            r.domain == domain,
    {
        VariableArgument { domain }
    }

    /// `?` followed by the domain's name.
    pub fn search_string(&self) -> (s: String)
        ensures
            s@ == "?"@ + domain_text(self.domain),
    {
        let mut s = String::from_str("?");
        let d = self.domain.to_string();
        s.append(d.as_str());
        s
    }
}

impl FirstOrderArgument {
    pub fn search_string(&self) -> (s: String)
        ensures
            s@ == argument_text(self@),
    {
        match self {
            FirstOrderArgument::Constant(arg) => arg.search_string(),
            FirstOrderArgument::Variable(arg) => arg.search_string(),
        }
    }

    /// A constant becomes a variable of its domain; a variable stays.
    pub fn convert_to_quantified(&self) -> (r: FirstOrderArgument)
        ensures
            r@ == quantified_argument(self@),
    {
        match self {
            FirstOrderArgument::Constant(arg) => FirstOrderArgument::Variable(
                VariableArgument::new(arg.domain),
            ),
            FirstOrderArgument::Variable(arg) => FirstOrderArgument::Variable(*arg),
        }
    }

    pub fn is_constant(&self) -> (r: bool)
        ensures
            r == (self@ is Constant),
    {
        match self {
            FirstOrderArgument::Constant(_) => true,
            FirstOrderArgument::Variable(_) => false,
        }
    }

    pub fn is_variable(&self) -> (r: bool)
        ensures
            r == (self@ is Variable),
    {
        !self.is_constant()
    }

    /// A copy with the same view.
    pub fn duplicate(&self) -> (r: FirstOrderArgument)
        ensures
            r@ == self@,
    {
        match self {
            FirstOrderArgument::Constant(arg) => FirstOrderArgument::Constant(
                ConstantArgument { domain: arg.domain, entity_id: arg.entity_id.clone() },
            ),
            FirstOrderArgument::Variable(arg) => FirstOrderArgument::Variable(*arg),
        }
    }
}

/// A role name together with the argument that fills it.
#[derive(Clone, Debug, PartialEq, Eq, Hash)]
pub struct FilledRole {
    pub role_name: String,
    pub argument: FirstOrderArgument,
}

impl View for FilledRole {
    type V = RoleView;

    open spec fn view(&self) -> RoleView {
        RoleView { name: self.role_name@, arg: self.argument@ }
    }
}

/// `name=argument`.
pub open spec fn role_text(r: RoleView) -> Seq<char> {
    r.name + "="@ + argument_text(r.arg)
}

impl FilledRole {
    pub fn new(role_name: String, argument: FirstOrderArgument) -> (r: Self)
        ensures
            r@ == (RoleView { name: role_name@, arg: argument@ }),
    {
        FilledRole { role_name, argument }
    }

    pub fn search_string(&self) -> (s: String)
        ensures
            s@ == role_text(self@),
    {
        let mut s = self.role_name.clone();
        s.append("=");
        let a = self.argument.search_string();
        s.append(a.as_str());
        s
    }

    /// The same role, its argument made a variable.
    pub fn convert_to_quantified(&self) -> (r: FilledRole)
        ensures
            r@ == (RoleView { name: self@.name, arg: quantified_argument(self@.arg) }),
    {
        FilledRole::new(self.role_name.clone(), self.argument.convert_to_quantified())
    }

    /// The same role, filled by `value`.
    pub fn do_substitution(&self, value: FirstOrderArgument) -> (r: FilledRole)
        ensures
            r@ == (RoleView { name: self@.name, arg: value@ }),
    {
        FilledRole::new(self.role_name.clone(), value)
    }

    /// A copy with the same view.
    pub fn duplicate(&self) -> (r: FilledRole)
        ensures
            r@ == self@,
    {
        FilledRole { role_name: self.role_name.clone(), argument: self.argument.duplicate() }
    }
}

/// The views of a vector of roles.
pub open spec fn role_views(v: Seq<FilledRole>) -> Seq<RoleView> {
    v.map_values(|r: FilledRole| r@)
}

/// A sequence of filled roles.
#[derive(Clone, Debug, PartialEq, Eq, Hash)]
pub struct Proposition {
    pub roles: Vec<FilledRole>,
}

impl View for Proposition {
    type V = PropositionView;

    open spec fn view(&self) -> PropositionView {
        role_views(self.roles@)
    }
}

/// `[role,role,...]`.
pub open spec fn proposition_text(p: PropositionView) -> Seq<char> {
    "["@ + join_spec(p.map_values(|r: RoleView| role_text(r)), ","@) + "]"@
}

/// Every role is filled by a constant.
pub open spec fn is_fact_view(p: PropositionView) -> bool {
    forall|i: int| 0 <= i < p.len() ==> (#[trigger] p[i]).arg is Constant
}

/// Copies a vector of roles.
pub fn duplicate_roles(v: &Vec<FilledRole>) -> (r: Vec<FilledRole>)
    ensures
        role_views(r@) == role_views(v@),
{
    let mut r: Vec<FilledRole> = Vec::new();
    let mut i: usize = 0;
    while i < v.len()
        invariant
            0 <= i <= v.len(),
            r@.len() == i,
            forall|k: int| 0 <= k < i ==> (#[trigger] r@[k])@ == v@[k]@,
        decreases v.len() - i,
    {
        r.push(v[i].duplicate());
        i += 1;
    }
    proof {
        assert(role_views(r@) =~= role_views(v@));
    }
    r
}

impl Proposition {
    pub fn new(roles: Vec<FilledRole>) -> (r: Self)
        ensures
            r@ == role_views(roles@),
    {
        Proposition { roles }
    }

    pub fn search_string(&self) -> (s: String)
        ensures
            s@ == proposition_text(self@),
    {
        let mut parts: Vec<String> = Vec::new();
        let mut i: usize = 0;
        while i < self.roles.len()
            invariant
                0 <= i <= self.roles.len(),
                parts@.len() == i,
                forall|k: int| 0 <= k < i ==> (#[trigger] parts@[k])@ == role_text(self@[k]),
            decreases self.roles.len() - i,
        {
            parts.push(self.roles[i].search_string());
            i += 1;
        }
        proof {
            assert(views_of(parts@) =~= self@.map_values(|r: RoleView| role_text(r)));
        }
        let joined = join_strings(&parts, ",");
        let mut s = String::from_str("[");
        s.append(joined.as_str());
        s.append("]");
        s
    }

    /// The names of the roles, in order.
    pub fn role_names(&self) -> (names: Vec<String>)
        ensures
            views_of(names@) == self@.map_values(|r: RoleView| r.name),
    {
        let mut names: Vec<String> = Vec::new();
        let mut i: usize = 0;
        while i < self.roles.len()
            invariant
                0 <= i <= self.roles.len(),
                names@.len() == i,
                forall|k: int| 0 <= k < i ==> (#[trigger] names@[k])@ == self@[k].name,
            decreases self.roles.len() - i,
        {
            names.push(self.roles[i].role_name.clone());
            i += 1;
        }
        proof {
            assert(views_of(names@) =~= self@.map_values(|r: RoleView| r.name));
        }
        names
    }

    /// Whether every role is filled by a constant.
    pub fn is_fact(&self) -> (r: bool)
        ensures
            r == is_fact_view(self@),
    {
        let mut i: usize = 0;
        while i < self.roles.len()
            invariant
                0 <= i <= self.roles.len(),
                forall|j: int| 0 <= j < i ==> (#[trigger] self@[j]).arg is Constant,
            decreases self.roles.len() - i,
        {
            if !self.roles[i].argument.is_constant() {
                assert(!(self@[i as int].arg is Constant));
                return false;
            }
            i += 1;
        }
        true
    }

    /// A copy with the same view.
    pub fn duplicate(&self) -> (r: Proposition)
        ensures
            r@ == self@,
    {
        Proposition { roles: duplicate_roles(&self.roles) }
    }
}

/// The views of a vector of propositions.
pub open spec fn proposition_views(v: Seq<Proposition>) -> Seq<PropositionView> {
    v.map_values(|p: Proposition| p@)
}

/// Copies a vector of propositions.
pub fn duplicate_propositions(v: &Vec<Proposition>) -> (r: Vec<Proposition>)
    ensures
        proposition_views(r@) == proposition_views(v@),
{
    let mut r: Vec<Proposition> = Vec::new();
    let mut i: usize = 0;
    while i < v.len()
        invariant
            0 <= i <= v.len(),
            r@.len() == i,
            forall|k: int| 0 <= k < i ==> (#[trigger] r@[k])@ == v@[k]@,
        decreases v.len() - i,
    {
        r.push(v[i].duplicate());
        i += 1;
    }
    proof {
        assert(proposition_views(r@) =~= proposition_views(v@));
    }
    r
}

/// A conjunction of propositions.
#[derive(Clone, Debug, PartialEq, Eq, Hash)]
pub struct Conjunction {
    pub terms: Vec<Proposition>,
}

impl View for Conjunction {
    type V = Seq<PropositionView>;

    open spec fn view(&self) -> Seq<PropositionView> {
        proposition_views(self.terms@)
    }
}

/// The terms' search texts, sorted, joined with `, `.
pub open spec fn conjunction_text(c: Seq<PropositionView>) -> Seq<char> {
    join_spec(sort_texts(c.map_values(|p: PropositionView| proposition_text(p))), ", "@)
}

impl Conjunction {
    pub fn new(terms: Vec<Proposition>) -> (r: Self)
        ensures
            r@ == proposition_views(terms@),
    {
        Conjunction { terms }
    }

    /// The search strings of the terms in ascending order, joined with `, `;
    /// so the order of the terms does not matter.
    pub fn search_string(&self) -> (s: String)
        ensures
            s@ == conjunction_text(self@),
    {
        let mut parts: Vec<String> = Vec::new();
        let mut i: usize = 0;
        while i < self.terms.len()
            invariant
                0 <= i <= self.terms.len(),
                parts@.len() == i,
                forall|k: int| 0 <= k < i ==> (#[trigger] parts@[k])@ == proposition_text(self@[k]),
            decreases self.terms.len() - i,
        {
            parts.push(self.terms[i].search_string());
            i += 1;
        }
        proof {
            assert(views_of(parts@) =~= self@.map_values(|p: PropositionView| proposition_text(p)));
        }
        let sorted = sort_strings(parts);
        join_strings(&sorted, ", ")
    }

    /// A copy with the same view.
    pub fn duplicate(&self) -> (r: Conjunction)
        ensures
            r@ == self@,
    {
        Conjunction { terms: duplicate_propositions(&self.terms) }
    }
}


/// A role map, abstractly: its (from, to) role-name pairs.
pub type RoleMapView = Seq<(Seq<char>, Seq<char>)>;

/// The views of a vector of role-name pairs.
pub open spec fn entry_views(v: Seq<(String, String)>) -> RoleMapView {
    v.map_values(|e: (String, String)| (e.0@, e.1@))
}

/// No role name is mapped twice.
pub open spec fn keys_distinct(m: RoleMapView) -> bool {
    forall|i: int, j: int| 0 <= i < j < m.len() ==> (#[trigger] m[i]).0 != (#[trigger] m[j]).0
}

/// The role names that are mapped, in entry order.
pub open spec fn role_map_keys(m: RoleMapView) -> Seq<Seq<char>> {
    m.map_values(|e: (Seq<char>, Seq<char>)| e.0)
}

/// What `k` is mapped to, if anything.
pub open spec fn role_map_lookup(m: RoleMapView, k: Seq<char>) -> Option<Seq<char>>
    decreases m.len(),
{
    if m.len() == 0 {
        None
    } else if m[0].0 == k {
        Some(m[0].1)
    } else {
        role_map_lookup(m.drop_first(), k)
    }
}

/// `key: value` for a mapped role name.
pub open spec fn role_map_entry_text(m: RoleMapView, k: Seq<char>) -> Seq<char> {
    k + ": "@ + match role_map_lookup(m, k) {
        Some(v) => v,
        None => Seq::empty(),
    }
}

/// `{key: value, ...}`, the entries in ascending order of their keys.
pub open spec fn role_map_text(m: RoleMapView) -> Seq<char> {
    "{"@ + join_spec(
        sort_texts(role_map_keys(m)).map_values(|k: Seq<char>| role_map_entry_text(m, k)),
        ", "@,
    ) + "}"@
}

/// How the role names of a conclusion map to those of one premise term.
#[derive(Clone, Debug, PartialEq, Eq, Hash)]
pub struct RoleMap {
    pub role_map: Vec<(String, String)>,
}

impl View for RoleMap {
    type V = RoleMapView;

    open spec fn view(&self) -> RoleMapView {
        entry_views(self.role_map@)
    }
}

impl RoleMap {
    /// The map with the given entries, no role name twice.
    pub fn new(role_map: Vec<(String, String)>) -> (r: Self)
        requires
            keys_distinct(entry_views(role_map@)),
        ensures
            r@ == entry_views(role_map@),
    {
        RoleMap { role_map }
    }

    /// What `role_name` is mapped to.
    pub fn get(&self, role_name: &str) -> (r: Option<&String>)
        ensures
            r is None <==> role_map_lookup(self@, role_name@) is None,
            r matches Some(v) ==> role_map_lookup(self@, role_name@) == Some(v@),
    {
        let mut i: usize = 0;
        proof {
            assert(self@.skip(0) =~= self@);
        }
        while i < self.role_map.len()
            invariant
                0 <= i <= self.role_map.len(),
                role_map_lookup(self@, role_name@) == role_map_lookup(
                    self@.skip(i as int),
                    role_name@,
                ),
            decreases self.role_map.len() - i,
        {
            proof {
                assert(self@.skip(i as int)[0] == self@[i as int]);
                assert(self@.skip(i as int).drop_first() =~= self@.skip(i + 1));
            }
            if text_eq(self.role_map[i].0.as_str(), role_name) {
                return Some(&self.role_map[i].1);
            }
            i += 1;
        }
        None
    }

    /// `{key: value, ...}`, the entries in ascending order of their keys,
    /// so the order in which the entries were given does not matter.
    pub fn to_string(&self) -> (s: String)
        ensures
            s@ == role_map_text(self@),
    {
        let mut keys: Vec<String> = Vec::new();
        let mut i: usize = 0;
        while i < self.role_map.len()
            invariant
                0 <= i <= self.role_map.len(),
                keys@.len() == i,
                forall|k: int| 0 <= k < i ==> (#[trigger] keys@[k])@ == self@[k].0,
            decreases self.role_map.len() - i,
        {
            keys.push(self.role_map[i].0.clone());
            i += 1;
        }
        proof {
            assert(views_of(keys@) =~= role_map_keys(self@));
        }
        let sorted = sort_strings(keys);
        let ghost sorted_keys = sort_texts(role_map_keys(self@));
        let mut parts: Vec<String> = Vec::new();
        let mut j: usize = 0;
        while j < sorted.len()
            invariant
                0 <= j <= sorted.len(),
                views_of(sorted@) == sorted_keys,
                sorted_keys == sort_texts(role_map_keys(self@)),
                parts@.len() == j,
                forall|k: int|
                    0 <= k < j ==> (#[trigger] parts@[k])@ == role_map_entry_text(
                        self@,
                        sorted_keys[k],
                    ),
            decreases sorted.len() - j,
        {
            assert(sorted@[j as int]@ == sorted_keys[j as int]);
            let mut part = sorted[j].clone();
            part.append(": ");
            match self.get(sorted[j].as_str()) {
                Some(v) => part.append(v.as_str()),
                None => {},
            }
            proof {
                assert(part@ =~= role_map_entry_text(self@, sorted_keys[j as int]));
            }
            parts.push(part);
            j += 1;
        }
        proof {
            assert(views_of(parts@) =~= sorted_keys.map_values(
                |k: Seq<char>| role_map_entry_text(self@, k),
            ));
        }
        let joined = join_strings(&parts, ", ");
        let mut s = String::from_str("{");
        s.append(joined.as_str());
        s.append("}");
        s
    }

    /// A copy with the same view.
    pub fn duplicate(&self) -> (r: RoleMap)
        ensures
            r@ == self@,
    {
        let mut v: Vec<(String, String)> = Vec::new();
        let mut i: usize = 0;
        while i < self.role_map.len()
            invariant
                0 <= i <= self.role_map.len(),
                v@.len() == i,
                forall|k: int|
                    0 <= k < i ==> (#[trigger] v@[k]).0@ == self@[k].0 && v@[k].1@ == self@[k].1,
            decreases self.role_map.len() - i,
        {
            v.push((self.role_map[i].0.clone(), self.role_map[i].1.clone()));
            i += 1;
        }
        proof {
            assert(entry_views(v@) =~= self@);
        }
        RoleMap { role_map: v }
    }
}

/// The views of a vector of role maps.
pub open spec fn role_map_views(v: Seq<RoleMap>) -> Seq<RoleMapView> {
    v.map_values(|m: RoleMap| m@)
}

/// `[map, map, ...]`.
pub open spec fn role_map_list_text(l: Seq<RoleMapView>) -> Seq<char> {
    "["@ + join_spec(l.map_values(|m: RoleMapView| role_map_text(m)), ", "@) + "]"@
}

/// One role map per premise term of an implication.
#[derive(Clone, Debug, PartialEq, Eq, Hash)]
pub struct RoleMapList {
    pub role_maps: Vec<RoleMap>,
}

impl View for RoleMapList {
    type V = Seq<RoleMapView>;

    open spec fn view(&self) -> Seq<RoleMapView> {
        role_map_views(self.role_maps@)
    }
}

impl RoleMapList {
    pub fn new(role_maps: Vec<RoleMap>) -> (r: Self)
        ensures
            r@ == role_map_views(role_maps@),
    {
        RoleMapList { role_maps }
    }

    /// `[map, map, ...]`.
    pub fn to_string(&self) -> (s: String)
        ensures
            s@ == role_map_list_text(self@),
    {
        let mut parts: Vec<String> = Vec::new();
        let mut i: usize = 0;
        while i < self.role_maps.len()
            invariant
                0 <= i <= self.role_maps.len(),
                parts@.len() == i,
                forall|k: int| 0 <= k < i ==> (#[trigger] parts@[k])@ == role_map_text(self@[k]),
            decreases self.role_maps.len() - i,
        {
            parts.push(self.role_maps[i].to_string());
            i += 1;
        }
        proof {
            assert(views_of(parts@) =~= self@.map_values(|m: RoleMapView| role_map_text(m)));
        }
        let joined = join_strings(&parts, ", ");
        let mut s = String::from_str("[");
        s.append(joined.as_str());
        s.append("]");
        s
    }

    /// A copy with the same view.
    pub fn duplicate(&self) -> (r: RoleMapList)
        ensures
            r@ == self@,
    {
        let mut v: Vec<RoleMap> = Vec::new();
        let mut i: usize = 0;
        while i < self.role_maps.len()
            invariant
                0 <= i <= self.role_maps.len(),
                v@.len() == i,
                forall|k: int| 0 <= k < i ==> (#[trigger] v@[k])@ == self@[k],
            decreases self.role_maps.len() - i,
        {
            v.push(self.role_maps[i].duplicate());
            i += 1;
        }
        proof {
            assert(role_map_views(v@) =~= self@);
        }
        RoleMapList { role_maps: v }
    }
}

/// What an implication is, abstractly.
pub struct ImplicationView {
    pub premise: Seq<PropositionView>,
    pub conclusion: PropositionView,
    pub role_maps: Seq<RoleMapView>,
}

/// A premise conjunction implies a conclusion; the role maps say, per
/// premise term, how the conclusion's roles fill the term's roles.
#[derive(Clone, Debug, PartialEq, Eq, Hash)]
pub struct Implication {
    pub premise: Conjunction,
    pub conclusion: Proposition,
    pub role_maps: RoleMapList,
}

impl View for Implication {
    type V = ImplicationView;

    open spec fn view(&self) -> ImplicationView {
        ImplicationView {
            premise: self.premise@,
            conclusion: self.conclusion@,
            role_maps: self.role_maps@,
        }
    }
}

/// `premise->conclusion[maps]`, the key that tells implications apart.
pub open spec fn unique_key_text(i: ImplicationView) -> Seq<char> {
    conjunction_text(i.premise) + "->"@ + proposition_text(i.conclusion) + role_map_list_text(
        i.role_maps,
    )
}

/// `premise[maps]`.
pub open spec fn feature_text(i: ImplicationView) -> Seq<char> {
    conjunction_text(i.premise) + role_map_list_text(i.role_maps)
}

impl Implication {
    /// The conclusion's search string.
    pub fn conclusion_string(&self) -> (s: String)
        ensures
            s@ == proposition_text(self@.conclusion),
    {
        self.conclusion.search_string()
    }

    /// The key that tells implications apart.
    pub fn unique_key(&self) -> (s: String)
        ensures
            s@ == unique_key_text(self@),
    {
        let mut s = self.premise.search_string();
        s.append("->");
        let c = self.conclusion.search_string();
        s.append(c.as_str());
        let m = self.mapping_string();
        s.append(m.as_str());
        s
    }

    /// The premise's search string followed by the role maps.
    pub fn feature_string(&self) -> (s: String)
        ensures
            s@ == feature_text(self@),
    {
        let mut s = self.premise.search_string();
        let m = self.mapping_string();
        s.append(m.as_str());
        s
    }

    fn mapping_string(&self) -> (s: String)
        ensures
            s@ == role_map_list_text(self@.role_maps),
    {
        self.role_maps.to_string()
    }

    /// A copy with the same view.
    pub fn duplicate(&self) -> (r: Implication)
        ensures
            r@ == self@,
    {
        Implication {
            premise: self.premise.duplicate(),
            conclusion: self.conclusion.duplicate(),
            role_maps: self.role_maps.duplicate(),
        }
    }
}

/// A named member of a domain.
#[derive(Clone, Debug, PartialEq, Eq, Hash)]
pub struct Entity {
    pub domain: Domain,
    pub name: String,
}

/// A relation name with the domains of its arguments.
#[derive(Clone, Debug, PartialEq, Eq, Hash)]
pub struct Relation {
    pub relation_name: String,
    pub types: Vec<VariableArgument>,
}

/// An implication together with the conjunction of propositions that
/// instantiates its premise.
#[derive(Clone, Debug, PartialEq, Eq, Hash)]
pub struct ImplicationInstance {
    pub link: Implication,
    pub conjunct: Conjunction,
}

impl ImplicationInstance {
    pub fn new(link: Implication, conjunction: Conjunction) -> (r: Self)
        ensures
            r.link@ == link@,
            r.conjunct@ == conjunction@,
    {
        ImplicationInstance { link, conjunct: conjunction }
    }
}


/// Whether two arguments are the same.
pub fn argument_eq(a: &FirstOrderArgument, b: &FirstOrderArgument) -> (r: bool)
    ensures
        r == (a@ == b@),
{
    match (a, b) {
        (FirstOrderArgument::Constant(x), FirstOrderArgument::Constant(y)) => {
            x.domain == y.domain && text_eq(x.entity_id.as_str(), y.entity_id.as_str())
        },
        (FirstOrderArgument::Variable(x), FirstOrderArgument::Variable(y)) => x.domain == y.domain,
        _ => false,
    }
}

/// Whether two propositions are the same.
pub fn proposition_eq(a: &Proposition, b: &Proposition) -> (r: bool)
    ensures
        r == (a@ == b@),
{
    if a.roles.len() != b.roles.len() {
        assert(a@.len() != b@.len());
        return false;
    }
    let mut i: usize = 0;
    while i < a.roles.len()
        invariant
            0 <= i <= a.roles.len(),
            a.roles.len() == b.roles.len(),
            forall|k: int| 0 <= k < i ==> (#[trigger] a@[k]) == b@[k],
        decreases a.roles.len() - i,
    {
        if !text_eq(a.roles[i].role_name.as_str(), b.roles[i].role_name.as_str()) || !argument_eq(
            &a.roles[i].argument,
            &b.roles[i].argument,
        ) {
            assert(a@[i as int] != b@[i as int]);
            return false;
        }
        i += 1;
    }
    proof {
        assert(a@ =~= b@);
    }
    true
}

/// Whether two conjunctions have the same terms in the same order.
pub fn conjunction_eq(a: &Conjunction, b: &Conjunction) -> (r: bool)
    ensures
        r == (a@ == b@),
{
    if a.terms.len() != b.terms.len() {
        assert(a@.len() != b@.len());
        return false;
    }
    let mut i: usize = 0;
    while i < a.terms.len()
        invariant
            0 <= i <= a.terms.len(),
            a.terms.len() == b.terms.len(),
            forall|k: int| 0 <= k < i ==> (#[trigger] a@[k]) == b@[k],
        decreases a.terms.len() - i,
    {
        if !proposition_eq(&a.terms[i], &b.terms[i]) {
            assert(a@[i as int] != b@[i as int]);
            return false;
        }
        i += 1;
    }
    proof {
        assert(a@ =~= b@);
    }
    true
}


proof fn lemma_map_values_multiset<A, B>(s1: Seq<A>, s2: Seq<A>, f: spec_fn(A) -> B)
    requires
        s1.to_multiset() == s2.to_multiset(),
    ensures
        s1.map_values(f).to_multiset() == s2.map_values(f).to_multiset(),
    decreases s1.len(),
{
    broadcast use vstd::seq_lib::group_to_multiset_ensures;
    broadcast use vstd::multiset::group_multiset_axioms;

    if s1.len() == 0 {
        assert(s1.to_multiset().len() == 0);
        assert(s2.to_multiset().len() == s2.len());
        assert(s2.len() == 0);
        assert(s1.map_values(f) =~= s2.map_values(f));
    } else {
        let x = s1.last();
        let t1 = s1.drop_last();
        assert(t1.push(x) =~= s1);
        assert(s1.to_multiset().count(x) > 0);
        assert(s2.contains(x));
        let j = choose|j: int| 0 <= j < s2.len() && s2[j] == x;
        let t2 = s2.remove(j);
        assert(t1.to_multiset() =~= s1.to_multiset().remove(x));
        assert(t2.to_multiset() =~= s2.to_multiset().remove(x));
        lemma_map_values_multiset(t1, t2, f);
        let m1 = s1.map_values(f);
        let m2 = s2.map_values(f);
        assert(t1.map_values(f).push(f(x)) =~= m1);
        assert(t2.map_values(f) =~= m2.remove(j));
        assert(m2[j] == f(x));
        assert(m2.remove(j).to_multiset() =~= m2.to_multiset().remove(f(x)));
        assert(m2.to_multiset().count(f(x)) > 0);
        assert(m1.to_multiset() =~= m2.to_multiset().remove(f(x)).insert(f(x)));
        assert(m2.to_multiset().remove(f(x)).insert(f(x)) =~= m2.to_multiset());
    }
}

/// The search string of a conjunction does not depend on the order of its
/// terms: two conjunctions with the same terms, each as often, in any order
/// (one a permutation of the other), have the same search string, which is
/// what `Conjunction::search_string` gives for each of them.
pub proof fn lemma_conjunction_text_order_free(c1: Seq<PropositionView>, c2: Seq<PropositionView>)
    requires
        c1.to_multiset() == c2.to_multiset(),
    ensures
        conjunction_text(c1) == conjunction_text(c2),
{
    let f = |p: PropositionView| proposition_text(p);
    lemma_map_values_multiset(c1, c2, f);
    crate::text::lemma_sort_texts_order_free(c1.map_values(f), c2.map_values(f));
}

proof fn lemma_role_map_lookup_entry(m: RoleMapView, k: Seq<char>)
    requires
        keys_distinct(m),
    ensures
        (exists|i: int| 0 <= i < m.len() && #[trigger] m[i].0 == k) ==> role_map_lookup(m, k)
            == Some(m[choose|i: int| 0 <= i < m.len() && #[trigger] m[i].0 == k].1),
        !(exists|i: int| 0 <= i < m.len() && #[trigger] m[i].0 == k) ==> role_map_lookup(m, k)
            is None,
    decreases m.len(),
{
    if m.len() > 0 {
        let t = m.drop_first();
        assert forall|i: int, j: int| 0 <= i < j < t.len() implies (#[trigger] t[i]).0 != (
        #[trigger] t[j]).0 by {
            assert(m[i + 1].0 != m[j + 1].0);
        }
        lemma_role_map_lookup_entry(t, k);
        if m[0].0 == k {
            let c = choose|i: int| 0 <= i < m.len() && #[trigger] m[i].0 == k;
            if c != 0 {
                assert(m[0].0 != m[c].0);
            }
        } else {
            if exists|i: int| 0 <= i < m.len() && #[trigger] m[i].0 == k {
                let c = choose|i: int| 0 <= i < m.len() && #[trigger] m[i].0 == k;
                assert(t[c - 1].0 == k);
                let d = choose|i: int| 0 <= i < t.len() && #[trigger] t[i].0 == k;
                if d != c - 1 {
                    if d < c - 1 {
                        assert(t[d].0 != t[c - 1].0);
                    } else {
                        assert(t[c - 1].0 != t[d].0);
                    }
                }
            } else {
                assert forall|i: int| 0 <= i < t.len() implies (#[trigger] t[i]).0 != k by {
                    assert(m[i + 1].0 != k);
                }
            }
        }
    }
}

proof fn lemma_role_map_lookup_same(m1: RoleMapView, m2: RoleMapView, k: Seq<char>)
    requires
        keys_distinct(m1),
        keys_distinct(m2),
        m1.to_multiset() == m2.to_multiset(),
    ensures
        role_map_lookup(m1, k) == role_map_lookup(m2, k),
{
    broadcast use vstd::seq_lib::group_to_multiset_ensures;

    lemma_role_map_lookup_entry(m1, k);
    lemma_role_map_lookup_entry(m2, k);
    if exists|i: int| 0 <= i < m1.len() && #[trigger] m1[i].0 == k {
        let c = choose|i: int| 0 <= i < m1.len() && #[trigger] m1[i].0 == k;
        assert(m1.to_multiset().count(m1[c]) > 0);
        assert(m2.contains(m1[c]));
        let d = choose|i: int| 0 <= i < m2.len() && m2[i] == m1[c];
        assert(m2[d].0 == k);
        let e = choose|i: int| 0 <= i < m2.len() && #[trigger] m2[i].0 == k;
        if e != d {
            if e < d {
                assert(m2[e].0 != m2[d].0);
            } else {
                assert(m2[d].0 != m2[e].0);
            }
        }
    } else if exists|i: int| 0 <= i < m2.len() && #[trigger] m2[i].0 == k {
        let d = choose|i: int| 0 <= i < m2.len() && #[trigger] m2[i].0 == k;
        assert(m2.to_multiset().count(m2[d]) > 0);
        assert(m1.contains(m2[d]));
        let c = choose|i: int| 0 <= i < m1.len() && m1[i] == m2[d];
        assert(m1[c].0 == k);
    }
}

/// The text of a role map does not depend on the order of its entries: two
/// maps with the same entries, no role name twice in either, have the same
/// text.
pub proof fn lemma_role_map_text_order_free(m1: RoleMapView, m2: RoleMapView)
    requires
        keys_distinct(m1),
        keys_distinct(m2),
        m1.to_multiset() == m2.to_multiset(),
    ensures
        role_map_text(m1) == role_map_text(m2),
{
    let f = |e: (Seq<char>, Seq<char>)| e.0;
    lemma_map_values_multiset(m1, m2, f);
    assert(role_map_keys(m1) =~= m1.map_values(f));
    assert(role_map_keys(m2) =~= m2.map_values(f));
    crate::text::lemma_sort_texts_order_free(role_map_keys(m1), role_map_keys(m2));
    let keys = sort_texts(role_map_keys(m1));
    assert forall|i: int| 0 <= i < keys.len() implies role_map_entry_text(m1, #[trigger] keys[i])
        == role_map_entry_text(m2, keys[i]) by {
        lemma_role_map_lookup_same(m1, m2, keys[i]);
    }
    assert(keys.map_values(|k: Seq<char>| role_map_entry_text(m1, k)) =~= keys.map_values(
        |k: Seq<char>| role_map_entry_text(m2, k),
    ));
}

/// A domain's name reads back as the domain, and a name that reads as a
/// domain is that domain's name.
pub proof fn lemma_domain_text_roundtrip(d: Domain, t: Seq<char>)
    ensures
        domain_from_text(domain_text(d)) == Some(d),
        domain_from_text(t) == Some(d) ==> domain_text(d) == t,
{
    reveal_strlit("Jack");
    reveal_strlit("Jill");
    reveal_strlit("Verb");
    assert("Jack"@ != "Jill"@) by {
        assert("Jack"@[1] != "Jill"@[1]);
    }
    assert("Jack"@ != "Verb"@) by {
        assert("Jack"@[0] != "Verb"@[0]);
    }
    assert("Jill"@ != "Verb"@) by {
        assert("Jill"@[0] != "Verb"@[0]);
    }
}

/// Propositions that differ in one role only, whose texts there have equal
/// length and differ, have different texts: their store entries are apart.
pub proof fn lemma_text_differs_in_role(p: PropositionView, q: PropositionView, j: int)
    requires
        p.len() == q.len(),
        0 <= j < p.len(),
        forall|k: int| 0 <= k < p.len() && k != j ==> p[k] == q[k],
        role_text(p[j]).len() == role_text(q[j]).len(),
        role_text(p[j]) != role_text(q[j]),
    ensures
        proposition_text(p) != proposition_text(q),
{
    let t = p.map_values(|r: RoleView| role_text(r));
    let u = q.map_values(|r: RoleView| role_text(r));
    assert forall|k: int| 0 <= k < t.len() && k != j implies t[k] == u[k] by {
        assert(p[k] == q[k]);
    }
    crate::text::lemma_join_differs(t, u, ","@, j);
    crate::text::lemma_infix_differs("["@, join_spec(t, ","@), join_spec(u, ","@), "]"@);
}

/// Where the text of role `j` starts in the text of `p`.
pub open spec fn role_offset(p: PropositionView, j: int) -> int {
    1 + crate::text::join_offset(p.map_values(|r: RoleView| role_text(r)), ","@, j)
}

/// Each character of role `j`'s text stands in the proposition's text at
/// the role's offset.
pub proof fn lemma_role_char(p: PropositionView, j: int, x: int)
    requires
        0 <= j < p.len(),
        0 <= x < role_text(p[j]).len(),
    ensures
        0 <= role_offset(p, j) + x < proposition_text(p).len(),
        proposition_text(p)[role_offset(p, j) + x] == role_text(p[j])[x],
{
    let t = p.map_values(|r: RoleView| role_text(r));
    assert(t[j] == role_text(p[j]));
    crate::text::lemma_join_char(t, ","@, j, x);
    let jn = join_spec(t, ","@);
    reveal_strlit("[");
    reveal_strlit("]");
    assert(proposition_text(p) == "["@ + jn + "]"@);
    assert(("["@ + jn + "]"@)[1 + crate::text::join_offset(t, ","@, j) + x] == jn[crate::text::join_offset(t, ","@, j) + x]);
}

/// Propositions that agree on their first `j` roles and whose role `j`
/// texts differ in character `x` have different texts: their store entries
/// are apart.
pub proof fn lemma_texts_differ_at(p: PropositionView, q: PropositionView, j: int, x: int)
    requires
        0 <= j < p.len(),
        j < q.len(),
        forall|k: int| 0 <= k < j ==> p[k] == q[k],
        0 <= x < role_text(p[j]).len(),
        x < role_text(q[j]).len(),
        role_text(p[j])[x] != role_text(q[j])[x],
    ensures
        proposition_text(p) != proposition_text(q),
{
    lemma_role_char(p, j, x);
    lemma_role_char(q, j, x);
    let t = p.map_values(|r: RoleView| role_text(r));
    let u = q.map_values(|r: RoleView| role_text(r));
    assert(t.take(j) =~= u.take(j)) by {
        assert forall|k: int| 0 <= k < j implies t.take(j)[k] == u.take(j)[k] by {
            assert(p[k] == q[k]);
        }
    }
    assert(role_offset(p, j) == role_offset(q, j));
}

} // verus!
