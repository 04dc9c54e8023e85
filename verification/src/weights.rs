//! The names of the weights of the exponential model and where they are kept.
//! Each implication has, for each class label, a positive and a negative
//! feature.

use vstd::prelude::*;
use crate::objects::{unique_key_text, Implication};
use crate::store::{command_views, map_get, map_insert, qualified_key, CommandView, PayloadView, StoreCommand};

verus! {

/// `-` for the label 0, `+` for any other.
pub open spec fn sign_text(class_label: usize) -> Seq<char> {
    if class_label == 0 {
        "-"@
    } else {
        "+"@
    }
}

/// `+>s feature`, with `s` the label's sign.
pub open spec fn positive_feature_text(feature: Seq<char>, class_label: usize) -> Seq<char> {
    "+>"@ + sign_text(class_label) + " "@ + feature
}

/// `->s feature`, with `s` the label's sign.
pub open spec fn negative_feature_text(feature: Seq<char>, class_label: usize) -> Seq<char> {
    "->"@ + sign_text(class_label) + " "@ + feature
}

/// The features of an implication with key `key`, in the order in which they
/// are initialised: positive and negative for label 0, then for label 1.
pub open spec fn weight_features(key: Seq<char>) -> Seq<Seq<char>> {
    seq![
        positive_feature_text(key, 0),
        negative_feature_text(key, 0),
        positive_feature_text(key, 1),
        negative_feature_text(key, 1),
    ]
}

/// The hash of weights.
pub open spec fn weights_key() -> Seq<char> {
    "weights"@
}

fn sign_char(value: usize) -> (s: String)
    ensures
        s@ == sign_text(value),
{
    if value == 0 {
        String::from_str("-")
    } else {
        String::from_str("+")
    }
}

/// The positive feature of `feature` for `class_label`.
pub fn positive_feature(feature: &str, class_label: usize) -> (s: String)
    ensures
        s@ == positive_feature_text(feature@, class_label),
{
    let mut s = String::from_str("+>");
    let sign = sign_char(class_label);
    s.append(sign.as_str());
    s.append(" ");
    s.append(feature);
    s
}

/// The negative feature of `feature` for `class_label`.
pub fn negative_feature(feature: &str, class_label: usize) -> (s: String)
    ensures
        s@ == negative_feature_text(feature@, class_label),
{
    let mut s = String::from_str("->");
    let sign = sign_char(class_label);
    s.append(sign.as_str());
    s.append(" ");
    s.append(feature);
    s
}

/// The weights of the exponential model of a namespace.
pub struct ExponentialWeights {
    pub namespace: String,
}

impl ExponentialWeights {
    /// The weights of `namespace`.
    pub fn new(namespace: String) -> (r: ExponentialWeights)
        ensures
            r.namespace@ == namespace@,
    {
        ExponentialWeights { namespace }
    }

    /// Writes the initial weights of the implication's features: `initial[j]`
    /// for the `j`-th of `weight_features`.
    pub fn initialize_weights(&self, implication: &Implication, initial: &Vec<String>) -> (r: Vec<
        StoreCommand,
    >)
        requires
            initial@.len() == 4,
        ensures
            command_views(r@).len() == 4,
            forall|j: int|
                0 <= j < 4 ==> #[trigger] command_views(r@)[j] == (CommandView::MapInsert {
                    key: qualified_key(self.namespace@, weights_key()),
                    field: weight_features(unique_key_text(implication@))[j],
                    value: PayloadView::Text(initial@[j]@),
                }),
    {
        let feature = implication.unique_key();
        let ghost fs = weight_features(feature@);
        let mut r: Vec<StoreCommand> = Vec::new();
        let mut label: usize = 0;
        while label < 2
            invariant
                label <= 2,
                initial@.len() == 4,
                fs == weight_features(feature@),
                feature@ == unique_key_text(implication@),
                r@.len() == 2 * label,
                forall|j: int|
                    0 <= j < 2 * label ==> #[trigger] r@[j]@ == (CommandView::MapInsert {
                        key: qualified_key(self.namespace@, weights_key()),
                        field: fs[j],
                        value: PayloadView::Text(initial@[j]@),
                    }),
            decreases 2 - label,
        {
            let posf = positive_feature(feature.as_str(), label);
            let negf = negative_feature(feature.as_str(), label);
            r.push(
                map_insert(
                    self.namespace.as_str(),
                    "weights",
                    posf.as_str(),
                    initial[2 * label].as_str(),
                ),
            );
            r.push(
                map_insert(
                    self.namespace.as_str(),
                    "weights",
                    negf.as_str(),
                    initial[2 * label + 1].as_str(),
                ),
            );
            label += 1;
        }
        r
    }

    /// Reads the weight of `feature`.
    pub fn read_single_weight(&self, feature: &str) -> (c: StoreCommand)
        ensures
            c@ == (CommandView::MapGet {
                key: qualified_key(self.namespace@, weights_key()),
                field: feature@,
            }),
    {
        map_get(self.namespace.as_str(), "weights", feature)
    }
}

/// The four features of an implication are four different entries of the
/// weights: a positive feature is never a negative one, and the two labels
/// give different features.
pub proof fn lemma_weight_features_distinct(key: Seq<char>)
    ensures
        forall|i: int, j: int|
            0 <= i < j < 4 ==> #[trigger] weight_features(key)[i] != #[trigger] weight_features(
                key,
            )[j],
{
    reveal_strlit("+>");
    reveal_strlit("->");
    reveal_strlit("-");
    reveal_strlit("+");
    reveal_strlit(" ");
    let f = weight_features(key);
    assert(f[0][0] == '+' && f[1][0] == '-' && f[2][0] == '+' && f[3][0] == '-');
    assert(f[0][2] == '-' && f[1][2] == '-' && f[2][2] == '+' && f[3][2] == '+');
}

} // verus!
