//! The order in which a training run visits its examples: every pass
//! reshuffles them and cuts the shuffled order into consecutive batches.
//!
//! A [`Training`] decides; the host that owns the numbers acts. Each call of
//! [`Training::step`] names the next thing to do, and the host does it
//! before it asks again.

use vstd::prelude::*;
use crate::matrix::copy_range;

verus! {

/// The generator that shuffles the examples. Nothing is known of its state.
#[verifier::external_type_specification]
#[verifier::external_body]
pub struct ExStdRng(rand::rngs::StdRng);

/// Number of batches that `len` examples fall into when each batch holds
/// `batch_size` of them and the last one holds the rest: `len / batch_size`,
/// rounded up.
pub open spec fn batch_count_spec(len: nat, batch_size: nat) -> nat
    recommends
        batch_size > 0,
{
    ((len + batch_size - 1) / (batch_size as int)) as nat
}

/// Position in the order at which batch `index` starts. Past the last batch
/// this is the end of the order.
pub open spec fn batch_start(len: nat, batch_size: nat, index: nat) -> nat {
    if index * batch_size < len {
        index * batch_size
    } else {
        len
    }
}

/// Batch `index` of an order: the examples from its start up to the start
/// of the next batch.
pub open spec fn batch(order: Seq<usize>, batch_size: nat, index: nat) -> Seq<usize> {
    order.subrange(
        batch_start(order.len(), batch_size, index) as int,
        batch_start(order.len(), batch_size, index + 1) as int,
    )
}

/// The positions `0, 1, .., len - 1` in rising order.
pub open spec fn identity(len: nat) -> Seq<usize> {
    Seq::new(len, |i: int| i as usize)
}

/// Whether `order` holds each position of a data set of its own length
/// exactly once.
pub open spec fn is_permutation(order: Seq<usize>) -> bool {
    order.to_multiset() == identity(order.len()).to_multiset()
}

/// A batch index lies below the number of batches exactly when its batch
/// starts inside the order.
pub proof fn lemma_batch_index(len: nat, batch_size: nat, index: nat)
    requires
        batch_size > 0,
    ensures
        index < batch_count_spec(len, batch_size) <==> index * batch_size < len,
        batch_count_spec(len, batch_size) <= len,
{
    let total = (len + batch_size - 1) as int;
    let size = batch_size as int;
    let count = total / size;
    vstd::arithmetic::div_mod::lemma_fundamental_div_mod(total, size);
    let rest = total % size;
    assert(0 <= rest < size) by {
        vstd::arithmetic::div_mod::lemma_mod_pos_bound(total, size);
    }
    assert(total == size * count + rest);
    assert(0 <= count) by (nonlinear_arith)
        requires
            total == size * count + rest,
            rest < size,
            total >= 0,
            size > 0,
    ;
    assert(index < count <==> index * size < len) by (nonlinear_arith)
        requires
            total == size * count + rest,
            0 <= rest < size,
            total == len + size - 1,
            size > 0,
            index >= 0,
    ;
    assert(count <= len) by (nonlinear_arith)
        requires
            total == size * count + rest,
            0 <= rest < size,
            total == len + size - 1,
            size > 0,
            count >= 0,
    ;
}

/// The batches cut an order into consecutive runs of `batch_size` examples,
/// but for the last one, which holds what is left: there are
/// `len / batch_size` of them, rounded up; every batch before the last is
/// full; the last holds `len mod batch_size` examples, or a full batch where
/// that is zero; and each position of the order lies in the batch that its
/// quotient by `batch_size` names, at the place of its remainder.
pub proof fn lemma_batches_partition(order: Seq<usize>, batch_size: nat)
    requires
        batch_size > 0,
    ensures
        batch_count_spec(order.len(), batch_size) == 0 <==> order.len() == 0,
        order.len() > 0 ==> (batch_count_spec(order.len(), batch_size) - 1) * batch_size
            < order.len() <= batch_count_spec(order.len(), batch_size) * batch_size,
        forall|k: nat|
            k + 1 < batch_count_spec(order.len(), batch_size) ==> (#[trigger] batch(
                order,
                batch_size,
                k,
            )).len() == batch_size,
        order.len() > 0 ==> batch(
            order,
            batch_size,
            (batch_count_spec(order.len(), batch_size) - 1) as nat,
        ).len() == if order.len() % batch_size == 0 {
            batch_size
        } else {
            order.len() % batch_size
        },
        forall|i: int|
            0 <= i < order.len() ==> {
                &&& i / (batch_size as int) < batch_count_spec(order.len(), batch_size)
                &&& i % (batch_size as int) < batch(
                    order,
                    batch_size,
                    (i / (batch_size as int)) as nat,
                ).len()
                &&& batch(order, batch_size, (i / (batch_size as int)) as nat)[i % (
                batch_size as int)] == #[trigger] order[i]
            },
{
    let len = order.len();
    let size = batch_size as int;
    let count = batch_count_spec(len, batch_size);
    lemma_batch_index(len, batch_size, 0);
    if count > 0 {
        lemma_batch_index(len, batch_size, (count - 1) as nat);
        lemma_batch_index(len, batch_size, count);
    }
    assert forall|k: nat| k + 1 < count implies (#[trigger] batch(order, batch_size, k)).len()
        == batch_size by {
        lemma_batch_index(len, batch_size, k);
        lemma_batch_index(len, batch_size, k + 1);
        assert((k + 1) * batch_size == k * batch_size + batch_size) by (nonlinear_arith);
    }
    if count > 0 {
        let last = (count - 1) as nat;
        assert(count * batch_size == last * batch_size + batch_size) by (nonlinear_arith)
            requires
                count == last + 1,
        ;
        let rest = len - last * batch_size;
        assert(0 < rest <= batch_size);
        assert(len as int % size == if rest == size {
            0
        } else {
            rest
        }) by {
            vstd::arithmetic::div_mod::lemma_fundamental_div_mod_converse(
                len as int,
                size,
                if rest == size {
                    count as int
                } else {
                    last as int
                },
                if rest == size {
                    0
                } else {
                    rest
                },
            );
        }
    }
    assert forall|i: int| 0 <= i < len implies {
        &&& #[trigger] (i / size) < count
        &&& i % size < batch(order, batch_size, (i / size) as nat).len()
    } by {
        lemma_position_in_batch(order, batch_size, i);
    }
    assert forall|i: int| 0 <= i < len implies batch(order, batch_size, (i / size) as nat)[i
        % size] == #[trigger] order[i] by {
        lemma_position_in_batch(order, batch_size, i);
    }
}

/// Position `i` of an order lies in the batch that `i / batch_size` names,
/// at place `i mod batch_size`.
proof fn lemma_position_in_batch(order: Seq<usize>, batch_size: nat, i: int)
    requires
        batch_size > 0,
        0 <= i < order.len(),
    ensures
        0 <= i / (batch_size as int) < batch_count_spec(order.len(), batch_size),
        0 <= i % (batch_size as int) < batch(
            order,
            batch_size,
            (i / (batch_size as int)) as nat,
        ).len(),
        batch(order, batch_size, (i / (batch_size as int)) as nat)[i % (batch_size as int)]
            == order[i],
{
    let len = order.len();
    let size = batch_size as int;
    let k = i / size;
    let r = i % size;
    vstd::arithmetic::div_mod::lemma_fundamental_div_mod(i, size);
    vstd::arithmetic::div_mod::lemma_mod_pos_bound(i, size);
    assert(0 <= k) by (nonlinear_arith)
        requires
            i == size * k + r,
            0 <= r < size,
            i >= 0,
    ;
    assert(k * size == size * k) by (nonlinear_arith);
    assert((k + 1) * size == k * size + size) by (nonlinear_arith);
    lemma_batch_index(len, batch_size, k as nat);
    lemma_batch_index(len, batch_size, (k + 1) as nat);
}

/// An order that is a permutation visits every example, and none twice:
/// each of its entries is a position of the data set, no two entries are
/// the same, and every position of the data set is among them.
pub proof fn lemma_permutation_visits_each_once(order: Seq<usize>)
    requires
        is_permutation(order),
        order.len() <= usize::MAX,
    ensures
        order.no_duplicates(),
        forall|i: int| 0 <= i < order.len() ==> (#[trigger] order[i]) < order.len(),
        forall|p: usize| p < order.len() ==> order.contains(p),
{
    let plain = identity(order.len());
    assert(plain.no_duplicates());
    plain.lemma_multiset_has_no_duplicates();
    order.lemma_multiset_has_no_duplicates_conv();
    assert forall|i: int| 0 <= i < order.len() implies (#[trigger] order[i]) < order.len() by {
        assert(order.contains(order[i]));
        vstd::seq_lib::to_multiset_contains(order, order[i]);
        vstd::seq_lib::to_multiset_contains(plain, order[i]);
        let k = choose|k: int| 0 <= k < plain.len() && plain[k] == order[i];
        assert(plain[k] == k);
    }
    assert forall|p: usize| p < order.len() implies order.contains(p) by {
        assert(plain[p as int] == p);
        assert(plain.contains(p));
        vstd::seq_lib::to_multiset_contains(order, p);
        vstd::seq_lib::to_multiset_contains(plain, p);
    }
}

/// Number of batches in one pass over `len` examples.
pub fn batch_count(len: usize, batch_size: usize) -> (count: usize)
    requires
        batch_size > 0,
    ensures
        count == batch_count_spec(len as nat, batch_size as nat),
{
    let full: usize = len / batch_size;
    let rest: usize = len % batch_size;
    proof {
        let size = batch_size as int;
        vstd::arithmetic::div_mod::lemma_fundamental_div_mod(len as int, size);
        lemma_batch_index(len as nat, batch_size as nat, full as nat);
        assert(size * full == full * size) by (nonlinear_arith);
        if rest != 0 {
            lemma_batch_index(len as nat, batch_size as nat, (full + 1) as nat);
            assert((full + 1) * size == full * size + size) by (nonlinear_arith);
        } else if full > 0 {
            lemma_batch_index(len as nat, batch_size as nat, (full - 1) as nat);
            assert((full - 1) * size == full * size - size) by (nonlinear_arith);
        }
    }
    if rest == 0 {
        full
    } else {
        full + 1
    }
}

/// Shuffles `order` in place with `rng`.
///
/// Calls `rand::seq::SliceRandom::shuffle` on the elements of `order`. That
/// function only ever swaps two elements of the slice it is given, so
/// whatever the generator yields, the shuffled order holds the same
/// positions as before, each as often. Which order comes out is not stated.
#[verifier::external_body]
fn shuffle(order: &mut Vec<usize>, rng: &mut rand::rngs::StdRng)
    ensures
        final(order)@.to_multiset() == old(order)@.to_multiset(),
{
    rand::seq::SliceRandom::shuffle(order.as_mut_slice(), rng);
}

/// What the host of a training run is to do next.
#[derive(Debug, PartialEq, Eq)]
pub enum Step {
    /// A pass over the examples begins, and the examples have been
    /// reshuffled for it. Holds the number of the pass, counted from 1.
    Begin(usize),
    /// The next batch of the pass: the positions of its examples in the
    /// data set. The gradients of these examples are summed, and the sum
    /// is applied to the parameters once.
    Batch(Vec<usize>),
    /// The batches of the pass are done and the run was started with
    /// scoring: the model is to be scored on the held-out examples. Holds
    /// the number of the pass.
    Score(usize),
    /// Every pass is done. Nothing is left to do, now or later.
    Finished,
}

/// A training run in progress: how far it has come, and the order in which
/// the pass at hand visits the examples.
pub struct Training {
    order: Vec<usize>,
    rng: rand::rngs::StdRng,
    batch_size: usize,
    iterations: usize,
    completed: usize,
    cursor: usize,
    batch: usize,
    active: bool,
    scoring: bool,
}

/// The state of a training run.
pub struct TrainingView {
    /// The order in which the pass at hand visits the examples.
    pub order: Seq<usize>,
    /// Number of examples in a full batch.
    pub batch_size: nat,
    /// Number of passes the run is to make.
    pub iterations: nat,
    /// Number of passes that are over.
    pub completed: nat,
    /// Number of batches of the pass at hand that have been handed out.
    pub batch: nat,
    /// Whether a pass is under way.
    pub active: bool,
    /// Whether each pass ends with a scoring of the model.
    pub scoring: bool,
}

impl TrainingView {
    /// What holds of every state of a run.
    pub open spec fn valid(self) -> bool {
        &&& self.batch_size > 0
        &&& self.completed <= self.iterations
        &&& self.active ==> self.completed < self.iterations
        &&& self.batch <= self.batches()
        &&& !self.active ==> self.batch == 0
        &&& is_permutation(self.order)
    }

    /// The state in which a run over `examples` examples starts.
    pub open spec fn initial(
        examples: nat,
        iterations: nat,
        batch_size: nat,
        scoring: bool,
    ) -> TrainingView {
        TrainingView {
            order: identity(examples),
            batch_size,
            iterations,
            completed: 0,
            batch: 0,
            active: false,
            scoring,
        }
    }

    /// Number of batches in a pass.
    pub open spec fn batches(self) -> nat {
        batch_count_spec(self.order.len(), self.batch_size)
    }

    /// Number of passes that are over once the pass at hand, if there is
    /// one, is over too.
    pub open spec fn passes_behind(self) -> nat {
        if self.active {
            self.completed + 1
        } else {
            self.completed
        }
    }

    /// A batch of the pass at hand is still to be handed out.
    pub open spec fn batch_due(self) -> bool {
        self.active && self.batch < self.batches()
    }

    /// The batches of the pass at hand are out, and it ends with a scoring.
    pub open spec fn score_due(self) -> bool {
        self.active && self.batch >= self.batches() && self.scoring
    }

    /// No pass is under way, or one ends without scoring, and another pass
    /// is to follow.
    pub open spec fn begin_due(self) -> bool {
        !self.batch_due() && !self.score_due() && self.passes_behind() < self.iterations
    }

    /// No pass is under way, or one ends without scoring, and it was the
    /// last.
    pub open spec fn finish_due(self) -> bool {
        !self.batch_due() && !self.score_due() && self.passes_behind() >= self.iterations
    }

    /// Number of steps that a pass takes: its beginning, its batches, and
    /// its scoring where the run scores.
    pub open spec fn steps_in_a_pass(self) -> nat {
        1 + self.batches() + if self.scoring {
            1nat
        } else {
            0nat
        }
    }

    /// Number of steps still to be taken before the run is finished.
    pub open spec fn steps_left(self) -> nat {
        if self.active {
            ((self.batches() - self.batch) + if self.scoring {
                1int
            } else {
                0int
            } + (self.iterations - self.completed - 1) * self.steps_in_a_pass()) as nat
        } else {
            ((self.iterations - self.completed) * self.steps_in_a_pass()) as nat
        }
    }

    /// The state after one more batch was handed out.
    pub open spec fn advanced(self) -> TrainingView {
        TrainingView { batch: self.batch + 1, ..self }
    }

    /// The state after the pass at hand, if there is one, was closed.
    pub open spec fn closed(self) -> TrainingView {
        TrainingView { completed: self.passes_behind(), batch: 0, active: false, ..self }
    }

    /// The state after the pass at hand, if there is one, was closed and a
    /// new pass began that visits the examples in `order`.
    pub open spec fn begun(self, order: Seq<usize>) -> TrainingView {
        TrainingView { order, completed: self.passes_behind(), batch: 0, active: true, ..self }
    }
}

/// A run comes to its end: exactly one of the four kinds of step is due in
/// any state; the run is finished exactly when no step is left; and every
/// other step leaves one step less. A run of `iterations` passes over `len`
/// examples so takes `iterations` times one beginning, `len / batch_size`
/// batches, rounded up, and one scoring where it scores.
pub proof fn lemma_steps_left(state: TrainingView, order: Seq<usize>)
    requires
        state.valid(),
        order.len() == state.order.len(),
    ensures
        state.batch_due() || state.score_due() || state.begin_due() || state.finish_due(),
        !(state.batch_due() && state.score_due()),
        !(state.begin_due() && state.finish_due()),
        state.finish_due() <==> state.steps_left() == 0,
        state.batch_due() ==> state.advanced().steps_left() + 1 == state.steps_left(),
        state.score_due() ==> state.closed().steps_left() + 1 == state.steps_left(),
        state.begin_due() ==> state.begun(order).steps_left() + 1 == state.steps_left(),
        TrainingView::initial(
            state.order.len(),
            state.iterations,
            state.batch_size,
            state.scoring,
        ).steps_left() == state.iterations * state.steps_in_a_pass(),
{
    let per = state.steps_in_a_pass() as int;
    let ahead = state.iterations - state.completed;
    assert(ahead * per == (ahead - 1) * per + per) by (nonlinear_arith);
    assert((ahead - 1) * per == (ahead - 2) * per + per) by (nonlinear_arith);
    assert(ahead >= 1 ==> ahead * per >= per) by (nonlinear_arith)
        requires
            per >= 1,
    ;
    assert(ahead >= 2 ==> (ahead - 1) * per >= per) by (nonlinear_arith)
        requires
            per >= 1,
    ;
    assert(ahead >= 1 ==> (ahead - 1) * per >= 0) by (nonlinear_arith)
        requires
            per >= 1,
    ;
    assert(ahead == 0 ==> ahead * per == 0) by (nonlinear_arith);
    assert(ahead == 1 ==> (ahead - 1) * per == 0) by (nonlinear_arith);
    assert(state.begun(order).batches() == state.batches());
    assert(state.begun(order).steps_in_a_pass() == per);
    assert(state.closed().steps_in_a_pass() == per);
    assert(state.advanced().steps_in_a_pass() == per);
    let first = TrainingView::initial(
        state.order.len(),
        state.iterations,
        state.batch_size,
        state.scoring,
    );
    assert(identity(state.order.len()).len() == state.order.len());
    assert(first.steps_in_a_pass() == per);
    assert((state.iterations - 0) * per == state.iterations * per);
}

impl View for Training {
    type V = TrainingView;

    closed spec fn view(&self) -> TrainingView {
        TrainingView {
            order: self.order@,
            batch_size: self.batch_size as nat,
            iterations: self.iterations as nat,
            completed: self.completed as nat,
            batch: self.batch as nat,
            active: self.active,
            scoring: self.scoring,
        }
    }
}

impl Training {
    /// Whether the run is in a state that its operations keep.
    pub closed spec fn wf(&self) -> bool {
        &&& self@.valid()
        &&& self.cursor == batch_start(
            self.order@.len(),
            self.batch_size as nat,
            self.batch as nat,
        )
    }

    /// Every state of a run is valid.
    pub proof fn lemma_valid(&self)
        requires
            self.wf(),
        ensures
            self@.valid(),
    {
    }

    /// A run of `iterations` passes over `examples` examples, in batches of
    /// `batch_size`, shuffled by `rng`. With `scoring`, each pass ends with
    /// a [`Step::Score`].
    pub fn start(
        examples: usize,
        iterations: usize,
        batch_size: usize,
        scoring: bool,
        rng: rand::rngs::StdRng,
    ) -> (training: Training)
        requires
            batch_size > 0,
        ensures
            training.wf(),
            training@ == TrainingView::initial(
                examples as nat,
                iterations as nat,
                batch_size as nat,
                scoring,
            ),
    {
        let mut order: Vec<usize> = Vec::new();
        let mut i: usize = 0;
        while i < examples
            invariant
                i <= examples,
                order@ == identity(i as nat),
            decreases examples - i,
        {
            order.push(i);
            i = i + 1;
        }
        Training {
            order,
            rng,
            batch_size,
            iterations,
            completed: 0,
            cursor: 0,
            batch: 0,
            active: false,
            scoring,
        }
    }

    /// Decides what is to be done next, and moves the run on.
    ///
    /// A run goes through its passes in turn. Each pass is a
    /// [`Step::Begin`], at which the examples are reshuffled; then its
    /// batches in the order of the shuffle, one [`Step::Batch`] each; then,
    /// in a run with scoring, a [`Step::Score`]. After the last pass every
    /// step is [`Step::Finished`].
    pub fn step(&mut self) -> (step: Step)
        requires
            old(self).wf(),
        ensures
            final(self).wf(),
            final(self)@.order.len() == old(self)@.order.len(),
            match step {
                Step::Begin(pass) => {
                    &&& old(self)@.begin_due()
                    &&& pass == old(self)@.passes_behind() + 1
                    &&& final(self)@.order.to_multiset() == old(self)@.order.to_multiset()
                    &&& final(self)@ == old(self)@.begun(final(self)@.order)
                },
                Step::Batch(examples) => {
                    &&& old(self)@.batch_due()
                    &&& examples@ == batch(
                        old(self)@.order,
                        old(self)@.batch_size,
                        old(self)@.batch,
                    )
                    &&& 0 < examples.len() <= old(self)@.batch_size
                    &&& forall|i: int|
                        0 <= i < examples.len() ==> (#[trigger] examples[i]) < old(
                            self,
                        )@.order.len()
                    &&& final(self)@ == old(self)@.advanced()
                },
                Step::Score(pass) => {
                    &&& old(self)@.score_due()
                    &&& pass == old(self)@.completed + 1
                    &&& final(self)@ == old(self)@.closed()
                },
                Step::Finished => {
                    &&& old(self)@.finish_due()
                    &&& final(self)@ == old(self)@.closed()
                },
            },
    {
        let len: usize = self.order.len();
        proof {
            lemma_batch_index(len as nat, self.batch_size as nat, self.batch as nat);
            lemma_batch_index(len as nat, self.batch_size as nat, (self.batch + 1) as nat);
            assert((self.batch + 1) * self.batch_size == self.batch * self.batch_size
                + self.batch_size) by (nonlinear_arith);
        }
        if self.active {
            if self.cursor < len {
                let end: usize = if self.batch_size >= len - self.cursor {
                    len
                } else {
                    self.cursor + self.batch_size
                };
                let examples = copy_range(&self.order, self.cursor, end);
                proof {
                    lemma_permutation_visits_each_once(self.order@);
                }
                self.cursor = end;
                self.batch = self.batch + 1;
                return Step::Batch(examples);
            }
            self.active = false;
            self.completed = self.completed + 1;
            self.cursor = 0;
            self.batch = 0;
            if self.scoring {
                return Step::Score(self.completed);
            }
        }
        if self.completed < self.iterations {
            proof {
                vstd::seq_lib::to_multiset_len(self.order@);
            }
            shuffle(&mut self.order, &mut self.rng);
            proof {
                vstd::seq_lib::to_multiset_len(self.order@);
            }
            self.active = true;
            Step::Begin(self.completed + 1)
        } else {
            Step::Finished
        }
    }
}

} // verus!
