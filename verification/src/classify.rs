//! Class selection and accuracy counting.
//!
//! An output activation reaches these functions as an order key: an `i32` that
//! is greater exactly when the activation is greater. A value that is not a
//! number gets the least key, so that it loses against every number.

use vstd::prelude::*;

verus! {

/// Whether `r` is the position of a greatest score, and the last such
/// position.
pub open spec fn is_last_max(scores: Seq<i32>, r: int) -> bool {
    &&& 0 <= r < scores.len()
    &&& forall|i: int| 0 <= i < scores.len() ==> scores[i] <= scores[r]
    &&& forall|i: int| r < i < scores.len() ==> scores[i] < scores[r]
}

/// The class that a row of scores stands for: the position of its greatest
/// score, the last one where several are equal, and 0 for an empty row.
pub open spec fn predicted_class(scores: Seq<i32>) -> int
    decreases scores.len(),
{
    if scores.len() <= 1 {
        0
    } else {
        let before = predicted_class(scores.drop_last());
        if scores.last() >= scores[before] {
            scores.len() - 1
        } else {
            before
        }
    }
}

/// On a row that is not empty, the predicted class is the last position of a
/// greatest score.
pub proof fn lemma_predicted_class_is_last_max(scores: Seq<i32>)
    requires
        scores.len() > 0,
    ensures
        is_last_max(scores, predicted_class(scores)),
    decreases scores.len(),
{
    if scores.len() > 1 {
        let front = scores.drop_last();
        lemma_predicted_class_is_last_max(front);
        assert(forall|i: int| 0 <= i < front.len() ==> front[i] == scores[i]);
    }
}

/// No row has two last positions of a greatest score.
pub proof fn lemma_last_max_is_unique(scores: Seq<i32>, a: int, b: int)
    requires
        is_last_max(scores, a),
        is_last_max(scores, b),
    ensures
        a == b,
{
    if a < b {
        assert(scores[b] < scores[a]);
        assert(scores[a] <= scores[b]);
    }
    if b < a {
        assert(scores[a] < scores[b]);
        assert(scores[b] <= scores[a]);
    }
}

/// The predicted class of a row of scores: the index of the greatest one. Of
/// several equal greatest scores the last wins; an empty row gives 0.
pub fn predict(scores: &[i32]) -> (class: usize)
    ensures
        class == predicted_class(scores@),
        scores@.len() == 0 ==> class == 0,
        scores@.len() > 0 ==> is_last_max(scores@, class as int),
{
    if scores.len() == 0 {
        return 0;
    }
    let mut best: usize = 0;
    let mut i: usize = 1;
    while i < scores.len()
        invariant
            1 <= i <= scores@.len(),
            best as int == predicted_class(scores@.take(i as int)),
            best < i,
        decreases scores.len() - i,
    {
        proof {
            let row = scores@.take(i as int + 1);
            assert(row.drop_last() == scores@.take(i as int));
            assert(row.last() == scores@[i as int]);
            assert(row[best as int] == scores@[best as int]);
        }
        if scores[i] >= scores[best] {
            best = i;
        }
        i += 1;
    }
    proof {
        assert(scores@.take(i as int) == scores@);
        lemma_predicted_class_is_last_max(scores@);
    }
    best
}

/// Whether `r` is the first position of `flags` that is set.
pub open spec fn is_first_set(flags: Seq<bool>, r: int) -> bool {
    &&& 0 <= r < flags.len()
    &&& flags[r]
    &&& forall|i: int| 0 <= i < r ==> !flags[i]
}

/// Whether no position of `flags` is set.
pub open spec fn none_set(flags: Seq<bool>) -> bool {
    forall|i: int| 0 <= i < flags.len() ==> !flags[i]
}

/// A row with one position set and no other marks the class of that
/// position.
pub proof fn lemma_one_hot_marks_its_class(flags: Seq<bool>, class: int)
    requires
        0 <= class < flags.len(),
        forall|i: int| 0 <= i < flags.len() ==> (#[trigger] flags[i] <==> i == class),
    ensures
        !none_set(flags),
        is_first_set(flags, class),
        forall|r: int| is_first_set(flags, r) ==> r == class,
{
    assert(flags[class]);
}

/// The class that a target row marks. `flags` says of each entry of the row
/// whether it is the one that marks the class; the answer is the first
/// position that is set, and 0 where none is.
pub fn target_class(flags: &[bool]) -> (class: usize)
    ensures
        none_set(flags@) ==> class == 0,
        !none_set(flags@) ==> is_first_set(flags@, class as int),
{
    let mut i: usize = 0;
    while i < flags.len()
        invariant
            i <= flags@.len(),
            forall|k: int| 0 <= k < i ==> !flags@[k],
        decreases flags.len() - i,
    {
        if flags[i] {
            return i;
        }
        i += 1;
    }
    0
}

/// What a network said of one sample, and what the sample is: the order keys
/// of its output activations, and the class that its target marks.
pub struct Outcome {
    pub scores: Vec<i32>,
    pub label: usize,
}

impl Outcome {
    /// Whether the predicted class is the sample's own.
    pub open spec fn is_hit(&self) -> bool {
        predicted_class(self.scores@) == self.label
    }
}

/// How many of the outcomes are hits.
pub open spec fn hit_count(outcomes: Seq<Outcome>) -> nat
    decreases outcomes.len(),
{
    if outcomes.len() == 0 {
        0
    } else {
        hit_count(outcomes.drop_last()) + if outcomes.last().is_hit() {
            1nat
        } else {
            0nat
        }
    }
}

/// There are never more hits than outcomes.
pub proof fn lemma_hit_count_bounded(outcomes: Seq<Outcome>)
    ensures
        hit_count(outcomes) <= outcomes.len(),
    decreases outcomes.len(),
{
    if outcomes.len() > 0 {
        lemma_hit_count_bounded(outcomes.drop_last());
    }
}

/// Every outcome is a hit exactly when there are as many hits as outcomes.
pub proof fn lemma_all_hits_is_full_count(outcomes: Seq<Outcome>)
    ensures
        (forall|k: int| 0 <= k < outcomes.len() ==> (#[trigger] outcomes[k]).is_hit())
            <==> hit_count(outcomes) == outcomes.len(),
    decreases outcomes.len(),
{
    if outcomes.len() > 0 {
        let front = outcomes.drop_last();
        lemma_all_hits_is_full_count(front);
        lemma_hit_count_bounded(front);
        assert(forall|k: int| 0 <= k < front.len() ==> front[k] == outcomes[k]);
        if hit_count(outcomes) == outcomes.len() {
            assert(outcomes.last().is_hit());
            assert forall|k: int| 0 <= k < outcomes.len() implies (#[trigger] outcomes[k]).is_hit() by {
                if k < front.len() {
                    assert(front[k].is_hit());
                }
            }
        }
        if forall|k: int| 0 <= k < outcomes.len() ==> (#[trigger] outcomes[k]).is_hit() {
            assert(outcomes[outcomes.len() - 1].is_hit());
            assert forall|k: int| 0 <= k < front.len() implies (#[trigger] front[k]).is_hit() by {
                assert(outcomes[k].is_hit());
            }
        }
    }
}

/// The whole percentage that `correct` makes of `total`, rounded down; 0 of
/// nothing.
pub open spec fn percent_of(correct: nat, total: nat) -> nat {
    if total == 0 {
        0
    } else {
        (100 * correct / total) as nat
    }
}

/// A percentage of a part is between 0 and 100, and 100 only of the whole.
pub proof fn lemma_percent_of_bounds(correct: nat, total: nat)
    requires
        correct <= total,
    ensures
        percent_of(correct, total) <= 100,
        total > 0 ==> (percent_of(correct, total) == 100 <==> correct == total),
{
    if total > 0 {
        assert(100 * correct / total <= 100 && (100 * correct / total == 100 <==> correct == total))
            by (nonlinear_arith)
            requires
                correct <= total,
                total > 0,
        ;
    }
}

/// The accuracy of any evaluation is between 0 and 100 percent, and it is 100
/// percent exactly when every outcome is a hit and there is one at least.
pub proof fn lemma_accuracy_in_range(outcomes: Seq<Outcome>)
    ensures
        0 <= percent_of(hit_count(outcomes), outcomes.len()) <= 100,
        percent_of(hit_count(outcomes), outcomes.len()) == 100 <==> outcomes.len() > 0 && forall|
            k: int,
        |
            0 <= k < outcomes.len() ==> (#[trigger] outcomes[k]).is_hit(),
{
    lemma_hit_count_bounded(outcomes);
    lemma_all_hits_is_full_count(outcomes);
    lemma_percent_of_bounds(hit_count(outcomes), outcomes.len());
}

/// The result of an evaluation: how many samples were seen and how many of
/// them were classified correctly.
#[derive(Debug, Clone, Copy, PartialEq, Eq, Structural)]
pub struct Accuracy {
    pub correct: usize,
    pub total: usize,
}

impl Accuracy {
    /// No more samples are correct than were seen.
    pub open spec fn wf(&self) -> bool {
        self.correct <= self.total
    }

    /// The accuracy as a whole percentage, rounded down. An evaluation of no
    /// samples has accuracy 0.
    pub fn percent(&self) -> (p: u8)
        requires
            self.wf(),
        ensures
            p == percent_of(self.correct as nat, self.total as nat),
            p <= 100,
            self.total > 0 ==> (p == 100 <==> self.correct == self.total),
    {
        proof {
            lemma_percent_of_bounds(self.correct as nat, self.total as nat);
        }
        if self.total == 0 {
            return 0;
        }
        let scaled: u128 = 100u128 * (self.correct as u128);
        let whole: u128 = scaled / (self.total as u128);
        whole as u8
    }
}

/// Evaluates a run over a sample set: counts the outcomes in which the
/// predicted class is the sample's own.
pub fn evaluate(outcomes: &[Outcome]) -> (accuracy: Accuracy)
    ensures
        accuracy.total == outcomes@.len(),
        accuracy.correct == hit_count(outcomes@),
        accuracy.wf(),
{
    let mut correct: usize = 0;
    let mut i: usize = 0;
    while i < outcomes.len()
        invariant
            i <= outcomes@.len(),
            correct == hit_count(outcomes@.take(i as int)),
            correct <= i,
        decreases outcomes.len() - i,
    {
        proof {
            let seen = outcomes@.take(i as int + 1);
            assert(seen.drop_last() == outcomes@.take(i as int));
            assert(seen.last() == outcomes@[i as int]);
        }
        let class: usize = predict(outcomes[i].scores.as_slice());
        if class == outcomes[i].label {
            correct += 1;
        }
        i += 1;
    }
    proof {
        assert(outcomes@.take(i as int) == outcomes@);
    }
    Accuracy { correct, total: outcomes.len() }
}

} // verus!
