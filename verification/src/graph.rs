//! The inference graph of a namespace as it is kept in the store: the
//! registered experiments, relations, domains and target, the entities of
//! each domain, and the implications with, per conclusion pattern, the set of
//! implications that conclude it (its backward links).

use vstd::prelude::*;
use std::rc::Rc;
use crate::error::BayesError;
use crate::objects::{
    domain_text, proposition_text, Domain, Entity, Implication, ImplicationView, Proposition,
    PropositionView, Relation, VariableArgument,
};
use crate::search::{existence_implication, extract_existence_factor_for_proposition, implication_views};
use crate::store::{
    append_commands, command_views, namespace_qualified_key, qualified_key, set_add,
    set_add_payload, set_members, CommandView, Payload, PayloadView, StoreCommand,
    lemma_qualified_key_injective, lemma_set_read_grows, set_read,
};

verus! {

/// The set of experiment names.
pub open spec fn experiments_key() -> Seq<char> {
    "experiments"@
}

/// The set of relation records.
pub open spec fn relations_key() -> Seq<char> {
    "relations"@
}

/// The set of implication records.
pub open spec fn implications_key() -> Seq<char> {
    "implications"@
}

/// The set that holds the target proposition.
pub open spec fn target_key() -> Seq<char> {
    "target"@
}

/// The set of registered domain names.
pub open spec fn domains_key() -> Seq<char> {
    "domains"@
}

/// The set of implications whose conclusion has the search text `conclusion`.
pub open spec fn backward_key(conclusion: Seq<char>) -> Seq<char> {
    "predicate_backward:"@ + conclusion
}

/// Adds `i` to the implications of namespace `ns`.
pub open spec fn implication_record(ns: Seq<char>, i: ImplicationView) -> CommandView {
    CommandView::SetAdd {
        key: qualified_key(ns, implications_key()),
        member: PayloadView::Implication(i),
    }
}

/// Adds `i` to the backward links of its conclusion.
pub open spec fn backward_link(ns: Seq<char>, i: ImplicationView) -> CommandView {
    CommandView::SetAdd {
        key: qualified_key(ns, backward_key(proposition_text(i.conclusion))),
        member: PayloadView::Implication(i),
    }
}

/// What storing one implication writes: the record, then the backward link.
pub open spec fn implication_commands(ns: Seq<char>, i: ImplicationView) -> Seq<CommandView> {
    seq![implication_record(ns, i), backward_link(ns, i)]
}

/// What storing the implications `s` in order writes.
pub open spec fn implications_commands(ns: Seq<char>, s: Seq<ImplicationView>) -> Seq<CommandView>
    decreases s.len(),
{
    if s.len() == 0 {
        Seq::empty()
    } else {
        implications_commands(ns, s.drop_last()) + implication_commands(ns, s.last())
    }
}

/// What storing an entity does: check that its domain is registered, then
/// add its name to the set of its domain.
pub open spec fn entity_commands(ns: Seq<char>, domain: Domain, name: Seq<char>) -> Seq<CommandView> {
    seq![
        CommandView::RequireMember {
            key: qualified_key(ns, domains_key()),
            member: domain_text(domain),
        },
        CommandView::SetAdd {
            key: qualified_key(ns, domain_text(domain)),
            member: PayloadView::Text(name),
        },
    ]
}

/// The entities of `domain` with the given names, in order.
pub open spec fn entities_named(domain: Domain, names: Seq<Seq<char>>) -> Seq<(Domain, Seq<char>)> {
    names.map_values(|n: Seq<char>| (domain, n))
}

/// The answer to a domain check: fine when the domain is registered, else
/// a `DomainNotRegistered` error that names it (the check never panics).
pub fn domain_check(domain: &str, registered: bool) -> (r: Result<(), BayesError>)
    ensures
        registered ==> r is Ok,
        !registered ==> (r matches Err(BayesError::DomainNotRegistered(d)) && d@ == domain@),
{
    if registered {
        Ok(())
    } else {
        Err(BayesError::DomainNotRegistered(String::from_str(domain)))
    }
}

/// A copy of a relation.
pub fn duplicate_relation(relation: &Relation) -> (r: Relation)
    ensures
        r@ == relation@,
{
    let mut types: Vec<VariableArgument> = Vec::new();
    let mut i: usize = 0;
    while i < relation.types.len()
        invariant
            0 <= i <= relation.types.len(),
            types@ == relation.types@.take(i as int),
        decreases relation.types.len() - i,
    {
        types.push(relation.types[i]);
        proof {
            assert(relation.types@.take(i + 1) =~= relation.types@.take(i as int).push(
                relation.types@[i as int],
            ));
        }
        i += 1;
    }
    proof {
        assert(relation.types@.take(i as int) =~= relation.types@);
    }
    Relation { relation_name: relation.relation_name.clone(), types }
}

/// The inference graph of one namespace.
pub struct InferenceGraph {
    pub namespace: String,
}

impl InferenceGraph {
    /// The graph of `namespace`, boxed.
    pub fn new_mutable(namespace: String) -> (g: Box<InferenceGraph>)
        ensures
            g.namespace@ == namespace@,
    {
        Box::new(InferenceGraph { namespace })
    }

    /// The graph of `namespace`, shared.
    pub fn new_shared(namespace: String) -> (g: Rc<InferenceGraph>)
        ensures
            g.namespace@ == namespace@,
    {
        Rc::new(InferenceGraph { namespace })
    }

    /// The graph of `namespace`.
    pub fn new_literal(namespace: String) -> (g: InferenceGraph)
        ensures
            g.namespace@ == namespace@,
    {
        InferenceGraph { namespace }
    }

    /// Records the name of an experiment.
    pub fn register_experiment(&self, experiment_name: &str) -> (c: StoreCommand)
        ensures
            c@ == (CommandView::SetAdd {
                key: qualified_key(self.namespace@, experiments_key()),
                member: PayloadView::Text(experiment_name@),
            }),
    {
        set_add(self.namespace.as_str(), "experiments", experiment_name)
    }

    /// Reads the names of the experiments.
    pub fn get_all_experiments(&self) -> (c: StoreCommand)
        ensures
            c@ == (CommandView::SetMembers { key: qualified_key(self.namespace@, experiments_key()) }),
    {
        set_members(self.namespace.as_str(), "experiments")
    }

    /// Records a relation.
    pub fn register_relation(&self, relation: &Relation) -> (c: StoreCommand)
        ensures
            c@ == (CommandView::SetAdd {
                key: qualified_key(self.namespace@, relations_key()),
                member: PayloadView::Relation(relation@),
            }),
    {
        set_add_payload(
            self.namespace.as_str(),
            "relations",
            Payload::Relation(duplicate_relation(relation)),
        )
    }

    /// Every relation is accepted.
    pub fn check_relation(&self, relation: &Relation) -> (r: Result<(), BayesError>)
        ensures
            r is Ok,
    {
        Ok(())
    }

    /// Reads the relation records.
    pub fn get_all_relations(&self) -> (c: StoreCommand)
        ensures
            c@ == (CommandView::SetMembers { key: qualified_key(self.namespace@, relations_key()) }),
    {
        set_members(self.namespace.as_str(), "relations")
    }

    /// Registers a domain name.
    pub fn register_domain(&self, domain: &str) -> (c: StoreCommand)
        ensures
            c@ == (CommandView::SetAdd {
                key: qualified_key(self.namespace@, domains_key()),
                member: PayloadView::Text(domain@),
            }),
    {
        set_add(self.namespace.as_str(), "domains", domain)
    }

    /// Requires the domain to be registered; the reply goes to `domain_check`.
    /// An unregistered domain is not a panic here: `domain_check` answers it
    /// with a `DomainNotRegistered` error that the caller returns.
    pub fn check_domain(&self, domain: &str) -> (c: StoreCommand)
        ensures
            c@ == (CommandView::RequireMember {
                key: qualified_key(self.namespace@, domains_key()),
                member: domain@,
            }),
    {
        StoreCommand::RequireMember {
            key: namespace_qualified_key(self.namespace.as_str(), "domains"),
            member: String::from_str(domain),
        }
    }

    /// Reads the registered domain names.
    pub fn get_all_domains(&self) -> (c: StoreCommand)
        ensures
            c@ == (CommandView::SetMembers { key: qualified_key(self.namespace@, domains_key()) }),
    {
        set_members(self.namespace.as_str(), "domains")
    }

    /// Records the target proposition.
    pub fn register_target(&self, target: &Proposition) -> (c: StoreCommand)
        ensures
            c@ == (CommandView::SetAdd {
                key: qualified_key(self.namespace@, target_key()),
                member: PayloadView::Proposition(target@),
            }),
    {
        set_add_payload(self.namespace.as_str(), "target", Payload::Proposition(target.duplicate()))
    }

    /// Reads the set that holds the target.
    pub fn get_target(&self) -> (c: StoreCommand)
        ensures
            c@ == (CommandView::SetMembers { key: qualified_key(self.namespace@, target_key()) }),
    {
        set_members(self.namespace.as_str(), "target")
    }

    /// Stores an entity: checks that its domain is registered, then adds its
    /// name to the set of its domain.
    pub fn store_entity(&self, entity: &Entity) -> (r: Vec<StoreCommand>)
        ensures
            command_views(r@) == entity_commands(self.namespace@, entity.domain, entity.name@),
    {
        let domain = entity.domain.to_string();
        let mut r: Vec<StoreCommand> = Vec::new();
        r.push(self.check_domain(domain.as_str()));
        r.push(set_add(self.namespace.as_str(), domain.as_str(), entity.name.as_str()));
        proof {
            assert(command_views(r@) =~= entity_commands(
                self.namespace@,
                entity.domain,
                entity.name@,
            ));
        }
        r
    }

    /// Reads the names of the entities of `domain`; `entities_from_names`
    /// turns the reply into entities.
    pub fn get_entities_in_domain(&self, domain: Domain) -> (c: StoreCommand)
        ensures
            c@ == (CommandView::SetMembers { key: qualified_key(self.namespace@, domain_text(domain)) }),
    {
        let d = domain.to_string();
        set_members(self.namespace.as_str(), d.as_str())
    }

    fn store_implication(&self, implication: &Implication) -> (c: StoreCommand)
        ensures
            c@ == implication_record(self.namespace@, implication@),
    {
        set_add_payload(
            self.namespace.as_str(),
            "implications",
            Payload::Implication(implication.duplicate()),
        )
    }

    fn store_predicate_backward_link(&self, inference: &Implication) -> (c: StoreCommand)
        ensures
            c@ == backward_link(self.namespace@, inference@),
    {
        let key = predicate_backward_set_name(&inference.conclusion);
        set_add_payload(
            self.namespace.as_str(),
            key.as_str(),
            Payload::Implication(inference.duplicate()),
        )
    }

    /// Stores an implication and its backward link.
    pub fn store_predicate_implication(&self, implication: &Implication) -> (r: Vec<StoreCommand>)
        ensures
            command_views(r@) == implication_commands(self.namespace@, implication@),
    {
        let mut r: Vec<StoreCommand> = Vec::new();
        r.push(self.store_implication(implication));
        r.push(self.store_predicate_backward_link(implication));
        proof {
            assert(command_views(r@) =~= implication_commands(self.namespace@, implication@));
        }
        r
    }

    /// Stores the implications in order.
    pub fn store_predicate_implications(&self, implications: &Vec<Implication>) -> (r: Vec<
        StoreCommand,
    >)
        ensures
            command_views(r@) == implications_commands(self.namespace@, implication_views(implications@)),
    {
        let ghost iv = implication_views(implications@);
        let mut r: Vec<StoreCommand> = Vec::new();
        let mut i: usize = 0;
        while i < implications.len()
            invariant
                0 <= i <= implications.len(),
                iv == implication_views(implications@),
                command_views(r@) == implications_commands(self.namespace@, iv.take(i as int)),
            decreases implications.len() - i,
        {
            let more = self.store_predicate_implication(&implications[i]);
            append_commands(&mut r, more);
            proof {
                assert(iv.take(i + 1).drop_last() =~= iv.take(i as int));
                assert(iv.take(i + 1).last() == implications@[i as int]@);
            }
            i += 1;
        }
        proof {
            assert(iv.take(i as int) =~= iv);
        }
        r
    }

    /// Stores the implication from the existence of the proposition's
    /// entities to its pattern, with its backward link.
    pub fn ensure_existence_backlinks_for_proposition(&self, proposition: &Proposition) -> (r: Vec<
        StoreCommand,
    >)
        ensures
            command_views(r@) == implication_commands(
                self.namespace@,
                existence_implication(proposition@),
            ),
    {
        let implication = extract_existence_factor_for_proposition(proposition);
        self.store_predicate_implication(&implication)
    }

    /// Reads the implication records.
    pub fn get_all_implications(&self) -> (c: StoreCommand)
        ensures
            c@ == (CommandView::SetMembers { key: qualified_key(self.namespace@, implications_key()) }),
    {
        set_members(self.namespace.as_str(), "implications")
    }

    /// Reads the implications whose conclusion has the search text of `conclusion`.
    pub fn predicate_backward_links(&self, conclusion: &Proposition) -> (c: StoreCommand)
        ensures
            c@ == (CommandView::SetMembers {
                key: qualified_key(self.namespace@, backward_key(proposition_text(conclusion@))),
            }),
    {
        let key = predicate_backward_set_name(conclusion);
        set_members(self.namespace.as_str(), key.as_str())
    }
}

fn predicate_backward_set_name(predicate: &Proposition) -> (s: String)
    ensures
        s@ == backward_key(proposition_text(predicate@)),
{
    let mut s = String::from_str("predicate_backward:");
    let t = predicate.search_string();
    s.append(t.as_str());
    s
}

/// The entities of `domain` with the given names, in order.
pub fn entities_from_names(domain: Domain, names: Vec<String>) -> (r: Vec<Entity>)
    ensures
        r@.len() == names@.len(),
        forall|k: int|
            0 <= k < names@.len() ==> (#[trigger] r@[k]).domain == domain && r@[k].name@
                == names@[k]@,
{
    let mut r: Vec<Entity> = Vec::new();
    let mut i: usize = 0;
    while i < names.len()
        invariant
            0 <= i <= names.len(),
            r@.len() == i,
            forall|k: int|
                0 <= k < i ==> (#[trigger] r@[k]).domain == domain && r@[k].name@ == names@[k]@,
        decreases names.len() - i,
    {
        r.push(Entity { domain, name: names[i].clone() });
        i += 1;
    }
    r
}

/// An implication's backward link lands in the set that
/// `predicate_backward_links` reads for a conclusion exactly when the two
/// conclusions have the same search text.
pub proof fn lemma_backward_link_found(ns: Seq<char>, i: ImplicationView, c: PropositionView)
    ensures
        (backward_link(ns, i) matches CommandView::SetAdd { key, .. } && key == qualified_key(
            ns,
            backward_key(proposition_text(c)),
        )) <==> proposition_text(i.conclusion) == proposition_text(c),
{
    let a = proposition_text(i.conclusion);
    let b = proposition_text(c);
    lemma_qualified_key_injective(ns, backward_key(a), backward_key(b));
    let p = "predicate_backward:"@;
    if backward_key(a) == backward_key(b) {
        assert(a =~= (p + a).skip(p.len() as int));
        assert(b =~= (p + b).skip(p.len() as int));
    }
}

/// The set of a domain's entities is none of the namespace's bookkeeping
/// sets: not the experiments, relations, implications, target or domains,
/// and no set of backward links.
pub proof fn lemma_entity_sets_apart(d: Domain, t: Seq<char>)
    ensures
        domain_text(d) != experiments_key(),
        domain_text(d) != relations_key(),
        domain_text(d) != implications_key(),
        domain_text(d) != target_key(),
        domain_text(d) != domains_key(),
        domain_text(d) != backward_key(t),
{
    reveal_strlit("Jack");
    reveal_strlit("Jill");
    reveal_strlit("Verb");
    reveal_strlit("experiments");
    reveal_strlit("relations");
    reveal_strlit("implications");
    reveal_strlit("target");
    reveal_strlit("domains");
    reveal_strlit("predicate_backward:");
    assert(domain_text(d).len() == 4);
    assert(domain_text(d)[0] != backward_key(t)[0]);
    assert(domain_text(d)[0] != target_key()[0]);
}

/// Once an implication is stored, the set of all implications holds it, and
/// so do the backward links read for its conclusion, whatever else is
/// stored later short of a flush: a lookup of what concludes a pattern with
/// the conclusion's text finds it.
pub proof fn lemma_implication_read_back(
    ns: Seq<char>,
    i: ImplicationView,
    prior: Seq<CommandView>,
    later: Seq<CommandView>,
)
    requires
        forall|k: int| 0 <= k < later.len() ==> !(#[trigger] later[k] is FlushDb),
    ensures
        set_read(prior + implication_commands(ns, i) + later, qualified_key(ns, implications_key())).contains(
            PayloadView::Implication(i),
        ),
        set_read(
            prior + implication_commands(ns, i) + later,
            qualified_key(ns, backward_key(proposition_text(i.conclusion))),
        ).contains(PayloadView::Implication(i)),
{
    let w = prior + implication_commands(ns, i);
    assert(w =~= prior.push(implication_record(ns, i)).push(backward_link(ns, i)));
    assert(w.drop_last() =~= prior.push(implication_record(ns, i)));
    assert(w.drop_last().drop_last() =~= prior);
    assert(set_read(w.drop_last(), qualified_key(ns, implications_key())).contains(PayloadView::Implication(i)));
    assert(set_read(w, qualified_key(ns, implications_key())).contains(PayloadView::Implication(i)));
    lemma_set_read_grows(w, later, qualified_key(ns, implications_key()));
    lemma_set_read_grows(w, later, qualified_key(ns, backward_key(proposition_text(i.conclusion))));
}

/// Once an entity is stored, the set of its domain holds its name, whatever
/// else is stored later short of a flush.
pub proof fn lemma_entity_read_back(
    ns: Seq<char>,
    domain: Domain,
    name: Seq<char>,
    prior: Seq<CommandView>,
    later: Seq<CommandView>,
)
    requires
        forall|k: int| 0 <= k < later.len() ==> !(#[trigger] later[k] is FlushDb),
    ensures
        set_read(prior + entity_commands(ns, domain, name) + later, qualified_key(ns, domain_text(domain))).contains(
            PayloadView::Text(name),
        ),
{
    let w = prior + entity_commands(ns, domain, name);
    assert(w.drop_last() =~= prior + seq![entity_commands(ns, domain, name)[0]]);
    assert(w.last() == entity_commands(ns, domain, name)[1]);
    lemma_set_read_grows(w, later, qualified_key(ns, domain_text(domain)));
}

} // verus!
