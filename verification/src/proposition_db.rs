//! Belief tables: where the observed truth of propositions is kept. A fact
//! about existence is certain and needs no entry.

use vstd::prelude::*;
use std::rc::Rc;
use crate::creators::relation_role;
use crate::objects::{proposition_text, Domain, FirstOrderArgument, Proposition, PropositionView};
use crate::search::existence_text;
use crate::store::{
    lemma_map_read_skip, lemma_map_read_write, map_get, map_insert, map_read, qualified_key, writes_entry,
    CommandView, PayloadView, StoreCommand,
};
use crate::text::text_eq;

verus! {

/// The hash from search strings to stored probabilities.
pub open spec fn probabilities_key() -> Seq<char> {
    "probabilities"@
}

/// How an observation is written: `1` for true, `0` for false.
pub open spec fn boolean_text(b: bool) -> Seq<char> {
    if b {
        "1"@
    } else {
        "0"@
    }
}

/// The text of an observation.
pub fn boolean_string(b: bool) -> (s: String)
    ensures
        s@ == boolean_text(b),
{
    if b {
        String::from_str("1")
    } else {
        String::from_str("0")
    }
}

/// Records the observation `b` of `p` in namespace `ns`.
pub open spec fn belief_command(ns: Seq<char>, p: PropositionView, b: bool) -> CommandView {
    CommandView::MapInsert {
        key: qualified_key(ns, probabilities_key()),
        field: proposition_text(p),
        value: PayloadView::Text(boolean_text(b)),
    }
}

/// The observation of `p` that the namespace's store holds once the
/// commands have run, if any.
pub open spec fn stored_belief(ns: Seq<char>, cmds: Seq<CommandView>, p: PropositionView) -> Option<PayloadView> {
    map_read(cmds, qualified_key(ns, probabilities_key()), proposition_text(p))
}

/// Whether `p`'s relation is existence, which every entity satisfies.
pub open spec fn is_existence_fact(p: PropositionView) -> bool {
    exists|k: int| 0 <= k < p.len() && #[trigger] p[k] == relation_role(existence_text())
}

/// Whether the proposition is about existence.
pub fn is_existence_proposition(proposition: &Proposition) -> (r: bool)
    ensures
        r == is_existence_fact(proposition@),
{
    let mut i: usize = 0;
    while i < proposition.roles.len()
        invariant
            0 <= i <= proposition.roles.len(),
            forall|k: int| 0 <= k < i ==> (#[trigger] proposition@[k]) != relation_role(existence_text()),
        decreases proposition.roles.len() - i,
    {
        let role = &proposition.roles[i];
        if text_eq(role.role_name.as_str(), "relation") {
            match &role.argument {
                FirstOrderArgument::Constant(c) => {
                    if c.domain == Domain::Verb && text_eq(c.entity_id.as_str(), "exist") {
                        assert(proposition@[i as int] == relation_role(existence_text()));
                        return true;
                    }
                },
                FirstOrderArgument::Variable(_) => {},
            }
        }
        i += 1;
    }
    false
}

/// The belief table of a namespace in the store.
pub struct RedisBeliefTable {
    pub namespace: String,
}

impl RedisBeliefTable {
    /// The table of `namespace`, boxed.
    pub fn new_mutable(namespace: String) -> (r: Box<RedisBeliefTable>)
        ensures
            r.namespace@ == namespace@,
    {
        Box::new(RedisBeliefTable { namespace })
    }

    /// The table of `namespace`, shared.
    pub fn new_shared(namespace: String) -> (r: Rc<RedisBeliefTable>)
        ensures
            r.namespace@ == namespace@,
    {
        Rc::new(RedisBeliefTable { namespace })
    }

    /// Records that `proposition` was observed true or false.
    pub fn store_proposition_boolean(&self, proposition: &Proposition, observation: bool) -> (c:
        StoreCommand)
        ensures
            c@ == belief_command(self.namespace@, proposition@, observation),
    {
        let field = proposition.search_string();
        let value = boolean_string(observation);
        map_insert(self.namespace.as_str(), "probabilities", field.as_str(), value.as_str())
    }

    /// Reads the recorded probability of `proposition`; nothing to read for
    /// a fact about existence, which is certain.
    pub fn get_proposition_probability(&self, proposition: &Proposition) -> (r: Option<StoreCommand>)
        ensures
            is_existence_fact(proposition@) <==> r is None,
            r matches Some(c) ==> c@ == (CommandView::MapGet {
                key: qualified_key(self.namespace@, probabilities_key()),
                field: proposition_text(proposition@),
            }),
    {
        if is_existence_proposition(proposition) {
            None
        } else {
            let field = proposition.search_string();
            Some(map_get(self.namespace.as_str(), "probabilities", field.as_str()))
        }
    }
}

/// A belief table that holds nothing: it knows only that existence is certain.
pub struct EmptyBeliefTable;

impl EmptyBeliefTable {
    /// The empty table, shared.
    pub fn new_shared() -> (r: Rc<EmptyBeliefTable>) {
        Rc::new(EmptyBeliefTable)
    }

    /// Whether the table knows the probability of `proposition`: only for a
    /// fact about existence, whose probability is one.
    pub fn get_proposition_probability(&self, proposition: &Proposition) -> (r: bool)
        ensures
            r == is_existence_fact(proposition@),
    {
        is_existence_proposition(proposition)
    }
}

/// A stored observation is what a later read of the proposition gives, as
/// long as nothing written after it writes that proposition again.
pub proof fn lemma_belief_read_back(
    ns: Seq<char>,
    p: PropositionView,
    b: bool,
    prior: Seq<CommandView>,
    later: Seq<CommandView>,
)
    requires
        forall|k: int|
            0 <= k < later.len() ==> !writes_entry(
                #[trigger] later[k],
                qualified_key(ns, probabilities_key()),
                proposition_text(p),
            ),
    ensures
        stored_belief(ns, prior.push(belief_command(ns, p, b)) + later, p) == Some(PayloadView::Text(boolean_text(b))),
{
    lemma_map_read_write(prior, qualified_key(ns, probabilities_key()), proposition_text(p), PayloadView::Text(boolean_text(b)));
    lemma_map_read_skip(prior.push(belief_command(ns, p, b)), later, qualified_key(ns, probabilities_key()), proposition_text(p));
}

} // verus!
