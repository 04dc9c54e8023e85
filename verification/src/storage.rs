//! The store as the first model of the library laid it out, without
//! namespaces: entities in a set per domain, propositions and their
//! probabilities in two hashes, implications in a set and, per conclusion, a
//! set of links, and the training and test lists, which are drained when read.

use vstd::prelude::*;
use crate::graph::entities_from_names;
use crate::objects::{
    domain_from_text, domain_text, proposition_text, Domain, Entity, Implication, ImplicationView,
    Proposition, PropositionView,
};
use crate::proposition_db::{boolean_string, boolean_text};
use crate::store::{command_views, CommandView, Payload, PayloadView, StoreCommand};
use crate::train::optional_views;

verus! {

/// Records `p` in the hash of propositions under its search text.
pub open spec fn proposition_record(p: PropositionView) -> CommandView {
    CommandView::MapInsert {
        key: "propositions"@,
        field: proposition_text(p),
        value: PayloadView::Proposition(p),
    }
}

/// Records the observation `b` of `p` in the hash of probabilities.
pub open spec fn probability_record(p: PropositionView, b: bool) -> CommandView {
    CommandView::MapInsert {
        key: "probs"@,
        field: proposition_text(p),
        value: PayloadView::Text(boolean_text(b)),
    }
}

/// Appends `p` to the list `queue`.
pub open spec fn raw_queue_push(queue: Seq<char>, p: PropositionView) -> CommandView {
    CommandView::SeqPush { key: queue, value: PayloadView::Proposition(p) }
}

/// What storing an implication writes: the record, then the link under its
/// conclusion's search text.
pub open spec fn raw_implication_commands(i: ImplicationView) -> Seq<CommandView> {
    seq![
        CommandView::SetAdd { key: "implications"@, member: PayloadView::Implication(i) },
        CommandView::SetAdd {
            key: proposition_text(i.conclusion),
            member: PayloadView::Implication(i),
        },
    ]
}

/// The store without namespaces.
pub struct Storage {}

impl Storage {
    /// The store.
    pub fn new() -> (r: Storage) {
        Storage {  }
    }

    /// Empties the database.
    pub fn drop_all_dbs(&self) -> (c: StoreCommand)
        ensures
            c@ == CommandView::FlushDb,
    {
        StoreCommand::FlushDb
    }

    /// Adds the entity's name to the set of its domain.
    pub fn store_entity(&self, entity: &Entity) -> (c: StoreCommand)
        ensures
            c@ == (CommandView::SetAdd {
                key: domain_text(entity.domain),
                member: PayloadView::Text(entity.name@),
            }),
    {
        StoreCommand::SetAdd {
            key: entity.domain.to_string(),
            member: Payload::Text(entity.name.clone()),
        }
    }

    /// Reads the names in the set of `domain`; `entities_in_domain` turns the
    /// reply into entities.
    pub fn get_entities_in_domain(&self, domain: &str) -> (c: StoreCommand)
        ensures
            c@ == (CommandView::SetMembers { key: domain@ }),
    {
        StoreCommand::SetMembers { key: String::from_str(domain) }
    }

    /// The entities of the domain named `domain` with the given names.
    pub fn entities_in_domain(domain: &str, names: Vec<String>) -> (r: Vec<Entity>)
        requires
            names@.len() == 0 || domain_from_text(domain@) is Some,
        ensures
            r@.len() == names@.len(),
            forall|k: int|
                0 <= k < names@.len() ==> Some((#[trigger] r@[k]).domain) == domain_from_text(
                    domain@,
                ) && r@[k].name@ == names@[k]@,
    {
        match Domain::from_str(domain) {
            Some(d) => entities_from_names(d, names),
            None => Vec::new(),
        }
    }

    /// Records `proposition` and its observation.
    pub fn store_proposition(&self, proposition: &Proposition, probability: bool) -> (r: Vec<
        StoreCommand,
    >)
        ensures
            command_views(r@) == seq![
                proposition_record(proposition@),
                probability_record(proposition@, probability),
            ],
    {
        let mut r: Vec<StoreCommand> = Vec::new();
        r.push(
            StoreCommand::MapInsert {
                key: String::from_str("propositions"),
                field: proposition.search_string(),
                value: Payload::Proposition(proposition.duplicate()),
            },
        );
        r.push(self.store_proposition_probability(proposition, probability));
        proof {
            assert(command_views(r@) =~= seq![
                proposition_record(proposition@),
                probability_record(proposition@, probability),
            ]);
        }
        r
    }

    /// Records the observation of `proposition`.
    pub fn store_proposition_probability(&self, proposition: &Proposition, probability: bool) -> (c:
        StoreCommand)
        ensures
            c@ == probability_record(proposition@, probability),
    {
        StoreCommand::MapInsert {
            key: String::from_str("probs"),
            field: proposition.search_string(),
            value: Payload::Text(boolean_string(probability)),
        }
    }

    /// Stores an implication and its link.
    pub fn store_implication(&self, implication: &Implication) -> (r: Vec<StoreCommand>)
        ensures
            command_views(r@) == raw_implication_commands(implication@),
    {
        let mut r: Vec<StoreCommand> = Vec::new();
        r.push(
            StoreCommand::SetAdd {
                key: String::from_str("implications"),
                member: Payload::Implication(implication.duplicate()),
            },
        );
        r.push(self.store_links(implication));
        proof {
            assert(command_views(r@) =~= raw_implication_commands(implication@));
        }
        r
    }

    /// Adds the implication to the links of its conclusion.
    pub fn store_links(&self, implication: &Implication) -> (c: StoreCommand)
        ensures
            c@ == (CommandView::SetAdd {
                key: proposition_text(implication@.conclusion),
                member: PayloadView::Implication(implication@),
            }),
    {
        StoreCommand::SetAdd {
            key: implication.conclusion_string(),
            member: Payload::Implication(implication.duplicate()),
        }
    }

    /// Reads the implication records.
    pub fn get_all_implications(&self) -> (c: StoreCommand)
        ensures
            c@ == (CommandView::SetMembers { key: "implications"@ }),
    {
        StoreCommand::SetMembers { key: String::from_str("implications") }
    }

    /// Reads the implications linked under the search text `search_string`.
    pub fn find_premises(&self, search_string: &str) -> (c: StoreCommand)
        ensures
            c@ == (CommandView::SetMembers { key: search_string@ }),
    {
        StoreCommand::SetMembers { key: String::from_str(search_string) }
    }

    /// Appends `proposition` to the list `queue_name`.
    pub fn add_proposition_to_queue(&self, queue_name: &str, proposition: &Proposition) -> (c:
        StoreCommand)
        ensures
            c@ == raw_queue_push(queue_name@, proposition@),
    {
        StoreCommand::SeqPush {
            key: String::from_str(queue_name),
            value: Payload::Proposition(proposition.duplicate()),
        }
    }

    /// Queues `proposition` for training when `is_training`.
    pub fn maybe_add_to_training(&self, is_training: bool, proposition: &Proposition) -> (r: Option<
        StoreCommand,
    >)
        ensures
            optional_views(r) == (if is_training {
                seq![raw_queue_push("training_queue"@, proposition@)]
            } else {
                Seq::empty()
            }),
    {
        if is_training {
            Some(self.add_proposition_to_queue("training_queue", proposition))
        } else {
            None
        }
    }

    /// Queues `proposition` for testing when `is_test`.
    pub fn maybe_add_to_test(&self, is_test: bool, proposition: &Proposition) -> (r: Option<
        StoreCommand,
    >)
        ensures
            optional_views(r) == (if is_test {
                seq![raw_queue_push("test_queue"@, proposition@)]
            } else {
                Seq::empty()
            }),
    {
        if is_test {
            Some(self.add_proposition_to_queue("test_queue", proposition))
        } else {
            None
        }
    }

    /// Takes every proposition off the training list, front first.
    pub fn get_training_questions(&self) -> (c: StoreCommand)
        ensures
            c@ == (CommandView::SeqDrain { key: "training_queue"@ }),
    {
        StoreCommand::SeqDrain { key: String::from_str("training_queue") }
    }

    /// Takes every proposition off the test list, front first.
    pub fn get_test_questions(&self) -> (c: StoreCommand)
        ensures
            c@ == (CommandView::SeqDrain { key: "test_queue"@ }),
    {
        StoreCommand::SeqDrain { key: String::from_str("test_queue") }
    }
}

} // verus!
