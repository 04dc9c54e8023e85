//! The training plan of a namespace: the queues of propositions to train on
//! and to test on.

use vstd::prelude::*;
use crate::objects::{Proposition, PropositionView};
use crate::store::{qualified_key, seq_get_all, seq_push_payload, CommandView, Payload, PayloadView, StoreCommand};

verus! {

/// The list of training propositions.
pub open spec fn training_queue() -> Seq<char> {
    "training_queue"@
}

/// The list of test propositions.
pub open spec fn test_queue() -> Seq<char> {
    "test_queue"@
}

/// Appends `p` to the list `queue` of namespace `ns`.
pub open spec fn queue_push(ns: Seq<char>, queue: Seq<char>, p: PropositionView) -> CommandView {
    CommandView::SeqPush { key: qualified_key(ns, queue), value: PayloadView::Proposition(p) }
}

/// What `maybe_add_to_training` writes: one push when training, else nothing.
pub open spec fn training_commands(ns: Seq<char>, is_training: bool, p: PropositionView) -> Seq<
    CommandView,
> {
    if is_training {
        seq![queue_push(ns, training_queue(), p)]
    } else {
        Seq::empty()
    }
}

/// What `maybe_add_to_test` writes: one push when testing, else nothing.
pub open spec fn test_commands(ns: Seq<char>, is_test: bool, p: PropositionView) -> Seq<CommandView> {
    if is_test {
        seq![queue_push(ns, test_queue(), p)]
    } else {
        Seq::empty()
    }
}

/// The view of an optional command, as a sequence of none or one.
pub open spec fn optional_views(o: Option<StoreCommand>) -> Seq<CommandView> {
    match o {
        Some(c) => seq![c@],
        None => Seq::empty(),
    }
}

/// Appends an optional command to `out`.
pub fn push_optional(out: &mut Vec<StoreCommand>, o: Option<StoreCommand>)
    ensures
        crate::store::command_views(final(out)@) == crate::store::command_views(old(out)@)
            + optional_views(o),
{
    let ghost a = out@;
    match o {
        Some(c) => {
            let ghost cv = c@;
            out.push(c);
            proof {
                assert(crate::store::command_views(out@) =~= crate::store::command_views(a)
                    + seq![cv]);
            }
        },
        None => {
            proof {
                assert(crate::store::command_views(a) + Seq::<CommandView>::empty()
                    =~= crate::store::command_views(a));
            }
        },
    }
}

/// The training plan of one namespace.
pub struct TrainingPlan {
    pub namespace: String,
}

impl TrainingPlan {
    /// The plan of `namespace`.
    pub fn new(namespace: String) -> (r: TrainingPlan)
        ensures
            r.namespace@ == namespace@,
    {
        TrainingPlan { namespace }
    }

    /// Appends `proposition` to the list `queue_name`.
    pub fn add_proposition_to_queue(&self, queue_name: &str, proposition: &Proposition) -> (c:
        StoreCommand)
        ensures
            c@ == queue_push(self.namespace@, queue_name@, proposition@),
    {
        seq_push_payload(
            self.namespace.as_str(),
            queue_name,
            Payload::Proposition(proposition.duplicate()),
        )
    }

    /// Queues `proposition` for training when `is_training`.
    pub fn maybe_add_to_training(&self, is_training: bool, proposition: &Proposition) -> (r: Option<
        StoreCommand,
    >)
        ensures
            optional_views(r) == training_commands(self.namespace@, is_training, proposition@),
    {
        if is_training {
            Some(self.add_proposition_to_queue("training_queue", proposition))
        } else {
            None
        }
    }

    /// Queues `proposition` for testing when `is_test`.
    pub fn maybe_add_to_test(&self, is_test: bool, proposition: &Proposition) -> (r: Option<
        StoreCommand,
    >)
        ensures
            optional_views(r) == test_commands(self.namespace@, is_test, proposition@),
    {
        if is_test {
            Some(self.add_proposition_to_queue("test_queue", proposition))
        } else {
            None
        }
    }

    /// Reads the training list.
    pub fn get_training_questions(&self) -> (c: StoreCommand)
        ensures
            c@ == (CommandView::SeqGetAll { key: qualified_key(self.namespace@, training_queue()) }),
    {
        seq_get_all(self.namespace.as_str(), "training_queue")
    }

    /// Reads the test list.
    pub fn get_test_questions(&self) -> (c: StoreCommand)
        ensures
            c@ == (CommandView::SeqGetAll { key: qualified_key(self.namespace@, test_queue()) }),
    {
        seq_get_all(self.namespace.as_str(), "test_queue")
    }
}

/// What is queued for training is never read as a test question, nor the
/// other way round: the two lists have different keys in every namespace.
pub proof fn lemma_queues_apart(ns: Seq<char>)
    ensures
        qualified_key(ns, training_queue()) != qualified_key(ns, test_queue()),
{
    reveal_strlit("training_queue");
    reveal_strlit("test_queue");
    crate::store::lemma_qualified_key_injective(ns, training_queue(), test_queue());
    assert(training_queue()[1] != test_queue()[1]);
}

/// A proposition added to a queue is what a read of that queue gives last.
pub proof fn lemma_queue_read_back(ns: Seq<char>, queue: Seq<char>, p: PropositionView, prior: Seq<CommandView>)
    ensures
        crate::store::list_read(prior.push(queue_push(ns, queue, p)), qualified_key(ns, queue))
            == crate::store::list_read(prior, qualified_key(ns, queue)).push(PayloadView::Proposition(p)),
{
    assert(prior.push(queue_push(ns, queue, p)).drop_last() =~= prior);
}

} // verus!
