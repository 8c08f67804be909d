//! Classification accuracy of predictions against one-hot targets.

use vstd::prelude::*;
use crate::bits::{exceeds, is_nan, word_exceeds, ONE};
use crate::error::LabelEncodingError;

verus! {

/// The position kept by a left-to-right scan over the first `seen` entries
/// that starts at position 0 and moves only to an entry that exceeds the
/// one it holds.
pub open spec fn leader(prediction: Seq<u64>, seen: nat) -> nat
    decreases seen,
{
    if seen == 0 {
        0
    } else {
        let held = leader(prediction, (seen - 1) as nat);
        if exceeds(prediction[seen - 1], prediction[held as int]) {
            (seen - 1) as nat
        } else {
            held
        }
    }
}

/// The class a prediction stands for: the position its scan ends on.
pub open spec fn predicted(prediction: Seq<u64>) -> nat {
    leader(prediction, prediction.len())
}

/// Whether `class` is the first position of `target` that holds one.
pub open spec fn labels(target: Seq<u64>, class: int) -> bool {
    &&& 0 <= class < target.len()
    &&& target[class] == ONE
    &&& forall|j: int| 0 <= j < class ==> target[j] != ONE
}

/// Whether some entry of `target` is one.
pub open spec fn labelled(target: Seq<u64>) -> bool {
    exists|j: int| 0 <= j < target.len() && target[j] == ONE
}

/// Whether the prediction of a pair stands for the class its target names.
pub open spec fn hit(pair: (Vec<u64>, Vec<u64>)) -> bool {
    labels(pair.1@, predicted(pair.0@) as int)
}

/// How many of the first `seen` pairs are hits.
pub open spec fn hits(pairs: Seq<(Vec<u64>, Vec<u64>)>, seen: nat) -> nat
    decreases seen,
{
    if seen == 0 {
        0
    } else {
        hits(pairs, (seen - 1) as nat) + if hit(pairs[seen - 1]) {
            1nat
        } else {
            0nat
        }
    }
}

/// The scan never leaves the entries it has seen.
proof fn lemma_leader_in_range(prediction: Seq<u64>, seen: nat)
    ensures
        seen == 0 ==> leader(prediction, seen) == 0,
        seen > 0 ==> leader(prediction, seen) < seen,
    decreases seen,
{
    if seen > 0 {
        lemma_leader_in_range(prediction, (seen - 1) as nat);
    }
}

/// Where every entry is a number, the predicted class holds a maximum, and
/// it is the first position to do so: nothing exceeds it, and it exceeds
/// everything before it.
pub proof fn lemma_predicted_is_first_maximum(prediction: Seq<u64>)
    requires
        prediction.len() > 0,
        forall|i: int| 0 <= i < prediction.len() ==> !is_nan(prediction[i]),
    ensures
        predicted(prediction) < prediction.len(),
        forall|j: int|
            0 <= j < prediction.len() ==> !exceeds(
                prediction[j],
                prediction[predicted(prediction) as int],
            ),
        forall|j: int|
            0 <= j < predicted(prediction) ==> exceeds(
                prediction[predicted(prediction) as int],
                prediction[j],
            ),
{
    lemma_leader_is_first_maximum(prediction, prediction.len());
}

proof fn lemma_leader_is_first_maximum(prediction: Seq<u64>, seen: nat)
    requires
        0 < seen <= prediction.len(),
        forall|i: int| 0 <= i < prediction.len() ==> !is_nan(prediction[i]),
    ensures
        leader(prediction, seen) < seen,
        forall|j: int|
            0 <= j < seen ==> !exceeds(prediction[j], prediction[leader(prediction, seen) as int]),
        forall|j: int|
            0 <= j < leader(prediction, seen) ==> exceeds(
                prediction[leader(prediction, seen) as int],
                prediction[j],
            ),
    decreases seen,
{
    let before = (seen - 1) as nat;
    lemma_leader_in_range(prediction, before);
    if seen > 1 {
        lemma_leader_is_first_maximum(prediction, before);
    }
    let held = leader(prediction, before) as int;
    let kept = leader(prediction, seen) as int;
    assert(kept == if exceeds(prediction[seen - 1], prediction[held]) {
        seen - 1
    } else {
        held
    });
    assert forall|j: int| 0 <= j < kept implies exceeds(prediction[kept], prediction[j]) by {
        if kept != held {
            assert(!exceeds(prediction[j], prediction[held]));
        }
    }
}

/// The class that a prediction stands for: the position of its greatest
/// entry, the first one where several are equal. An empty prediction stands
/// for class 0.
pub fn predicted_class(prediction: &Vec<u64>) -> (class: usize)
    ensures
        class == predicted(prediction@),
        prediction.len() > 0 ==> class < prediction.len(),
{
    let mut held: usize = 0;
    let mut i: usize = 0;
    while i < prediction.len()
        invariant
            i <= prediction.len(),
            held == leader(prediction@, i as nat),
            i > 0 ==> held < i,
            i == 0 ==> held == 0,
        decreases prediction.len() - i,
    {
        if word_exceeds(prediction[i], prediction[held]) {
            held = i;
        }
        i = i + 1;
    }
    held
}

/// The class that a target names: the first position that holds one.
/// `None` where no entry is one.
pub fn true_class(target: &Vec<u64>) -> (class: Option<usize>)
    ensures
        match class {
            Some(c) => labels(target@, c as int),
            None => !labelled(target@),
        },
{
    let mut i: usize = 0;
    while i < target.len()
        invariant
            i <= target.len(),
            forall|j: int| 0 <= j < i ==> target@[j] != ONE,
        decreases target.len() - i,
    {
        if target[i] == ONE {
            return Some(i);
        }
        i = i + 1;
    }
    None
}

/// Scores pairs of a prediction and its target: how many predictions stand
/// for the class their target names, and how many pairs there are.
///
/// Fails on the first target without an entry equal to one, however many
/// predictions before it were right.
pub fn evaluate(pairs: &Vec<(Vec<u64>, Vec<u64>)>) -> (score: Result<
    (usize, usize),
    LabelEncodingError,
>)
    ensures
        match score {
            Ok((correct, total)) => {
                &&& forall|i: int| 0 <= i < pairs.len() ==> labelled(#[trigger] pairs[i].1@)
                &&& total == pairs.len()
                &&& correct == hits(pairs@, pairs.len() as nat)
                &&& correct <= total
            },
            Err(e) => {
                &&& e.example < pairs.len()
                &&& !labelled(pairs[e.example as int].1@)
                &&& forall|i: int| 0 <= i < e.example ==> labelled(#[trigger] pairs[i].1@)
            },
        },
{
    let mut correct: usize = 0;
    let mut i: usize = 0;
    while i < pairs.len()
        invariant
            i <= pairs.len(),
            correct == hits(pairs@, i as nat),
            correct <= i,
            forall|j: int| 0 <= j < i ==> labelled(#[trigger] pairs[j].1@),
        decreases pairs.len() - i,
    {
        let guess: usize = predicted_class(&pairs[i].0);
        match true_class(&pairs[i].1) {
            Some(class) => {
                if guess == class {
                    correct = correct + 1;
                }
            },
            None => {
                return Err(LabelEncodingError { example: i });
            },
        }
        i = i + 1;
    }
    Ok((correct, pairs.len()))
}

} // verus!
