//! The parameters of a network, the invariant that ties their shapes to the
//! layer sizes, and the checks a network makes of what it is given.

use vstd::prelude::*;
use crate::error::{ConstructionError, DimensionMismatchError, FormatError, Part};
use crate::matrix::{copy_range, duplicate_all, views, Matrix, MatrixView};
use crate::schedule::{Training, TrainingView};

verus! {

/// The parameters of a network as an open record: what a network exports
/// and what it is rebuilt from. Nothing is promised of a record's shapes.
#[derive(Debug, PartialEq, Eq)]
pub struct Model {
    /// Width of each layer, the input layer first.
    pub sizes: Vec<usize>,
    /// For each pair of adjacent layers, the matrix that takes the
    /// activations of the first to the second.
    pub weights: Vec<Matrix>,
    /// For each pair of adjacent layers, the column that is added to what
    /// the weights give.
    pub biases: Vec<Matrix>,
}

/// What a record, or a network, holds.
pub struct ModelView {
    pub sizes: Seq<usize>,
    pub weights: Seq<MatrixView>,
    pub biases: Seq<MatrixView>,
}

/// One example: an input and the output wanted for it.
#[derive(Debug, PartialEq, Eq)]
pub struct Example {
    pub input: Vec<u64>,
    pub target: Vec<u64>,
}

/// Whether `sizes` describes a network: at least an input and an output
/// layer, and no layer without a unit.
pub open spec fn valid_sizes(sizes: Seq<usize>) -> bool {
    &&& sizes.len() >= 2
    &&& forall|i: int| 0 <= i < sizes.len() ==> sizes[i] > 0
}

/// Number of parameters between layer `layer` and the next: one bias for
/// each unit of the next layer, and one weight for each pair of units.
pub open spec fn layer_parameters(sizes: Seq<usize>, layer: int) -> nat {
    (sizes[layer + 1] + sizes[layer + 1] * sizes[layer]) as nat
}

/// Number of parameters before those between layer `layer` and the next.
pub open spec fn parameters_before(sizes: Seq<usize>, layer: nat) -> nat
    decreases layer,
{
    if layer == 0 {
        0
    } else {
        parameters_before(sizes, (layer - 1) as nat) + layer_parameters(sizes, layer - 1)
    }
}

/// Number of parameters of a network with these layer sizes.
pub open spec fn parameter_count_spec(sizes: Seq<usize>) -> nat {
    if sizes.len() < 2 {
        0
    } else {
        parameters_before(sizes, (sizes.len() - 1) as nat)
    }
}

/// The bias column between layer `layer` and the next when the parameters
/// are taken from `samples` in order.
pub open spec fn sampled_bias(sizes: Seq<usize>, samples: Seq<u64>, layer: int) -> MatrixView {
    let start = parameters_before(sizes, layer as nat) as int;
    MatrixView {
        rows: sizes[layer + 1] as nat,
        cols: 1,
        entries: samples.subrange(start, start + sizes[layer + 1]),
    }
}

/// The weight matrix between layer `layer` and the next when the
/// parameters are taken from `samples` in order.
pub open spec fn sampled_weight(sizes: Seq<usize>, samples: Seq<u64>, layer: int) -> MatrixView {
    let start = parameters_before(sizes, layer as nat) as int;
    MatrixView {
        rows: sizes[layer + 1] as nat,
        cols: sizes[layer] as nat,
        entries: samples.subrange(
            start + sizes[layer + 1],
            parameters_before(sizes, (layer + 1) as nat) as int,
        ),
    }
}

/// The network whose parameters are `samples`, taken in order: for each
/// pair of adjacent layers from the input on, first the bias column, then
/// the weight matrix, each filled in storage order.
pub open spec fn sampled(sizes: Seq<usize>, samples: Seq<u64>) -> ModelView {
    ModelView {
        sizes,
        weights: Seq::new((sizes.len() - 1) as nat, |i: int| sampled_weight(sizes, samples, i)),
        biases: Seq::new((sizes.len() - 1) as nat, |i: int| sampled_bias(sizes, samples, i)),
    }
}

impl ModelView {
    /// Whether there is one weight matrix and one bias column for each pair
    /// of adjacent layers.
    pub open spec fn layers_counted(self) -> bool {
        &&& self.weights.len() == self.sizes.len() - 1
        &&& self.biases.len() == self.sizes.len() - 1
    }

    /// Whether the parameters between layer `layer` and the next have the
    /// shapes the two layers call for: as many rows as the next layer has
    /// units; the weights as many columns as this layer has units, the
    /// biases one.
    pub open spec fn layer_fits(self, layer: int) -> bool {
        &&& self.weights[layer].shaped(self.sizes[layer + 1] as nat, self.sizes[layer] as nat)
        &&& self.biases[layer].shaped(self.sizes[layer + 1] as nat, 1)
    }

    /// The invariant of a network.
    pub open spec fn consistent(self) -> bool {
        &&& valid_sizes(self.sizes)
        &&& self.layers_counted()
        &&& forall|i: int| 0 <= i < self.sizes.len() - 1 ==> self.layer_fits(i)
    }

    /// Whether a vector can be fed to the input layer.
    pub open spec fn takes(self, input: Seq<u64>) -> bool {
        input.len() == self.sizes[0]
    }

    /// Whether a vector can be held against the output layer.
    pub open spec fn gives(self, target: Seq<u64>) -> bool {
        target.len() == self.sizes[self.sizes.len() - 1]
    }

    /// Whether both vectors of an example have the widths of the layers
    /// they are meant for.
    pub open spec fn fits(self, example: Example) -> bool {
        self.takes(example.input@) && self.gives(example.target@)
    }

    /// What is reported of an example that does not fit, found at position
    /// `index` of a data set.
    pub open spec fn mismatch(self, example: Example, index: usize) -> DimensionMismatchError {
        if !self.takes(example.input@) {
            DimensionMismatchError {
                example: index,
                part: Part::Input,
                expected: self.sizes[0],
                found: example.input@.len() as usize,
            }
        } else {
            DimensionMismatchError {
                example: index,
                part: Part::Target,
                expected: self.sizes[self.sizes.len() - 1],
                found: example.target@.len() as usize,
            }
        }
    }
}

impl View for Model {
    type V = ModelView;

    open spec fn view(&self) -> ModelView {
        ModelView { sizes: self.sizes@, weights: views(self.weights@), biases: views(self.biases@) }
    }
}

/// The record that a network with these parameters exports: the parameters
/// themselves.
pub open spec fn exported(network: ModelView) -> ModelView {
    network
}

/// The parameters of the network that is rebuilt from a record. `None`
/// where the record is turned down.
pub open spec fn imported(record: ModelView) -> Option<ModelView> {
    if record.consistent() {
        Some(record)
    } else {
        None
    }
}

/// A network that is exported and then rebuilt from its record is the
/// network it was: the record is accepted, and what is rebuilt has the
/// same sizes, the same shapes and the same entries in the same places.
pub proof fn lemma_export_then_import(network: Network)
    requires
        network.wf(),
    ensures
        imported(exported(network@)) == Some(network@),
{
}

/// A network: layer sizes, and for each pair of adjacent layers a weight
/// matrix and a bias column of the shapes that the sizes call for.
#[derive(Debug, PartialEq, Eq)]
pub struct Network {
    model: Model,
}

impl View for Network {
    type V = ModelView;

    closed spec fn view(&self) -> ModelView {
        self.model@
    }
}

/// The first layer without a unit, if there is one.
fn first_empty_layer(sizes: &Vec<usize>) -> (found: Option<usize>)
    ensures
        match found {
            Some(layer) => {
                &&& layer < sizes.len()
                &&& sizes[layer as int] == 0
                &&& forall|j: int| 0 <= j < layer ==> sizes[j] > 0
            },
            None => forall|j: int| 0 <= j < sizes.len() ==> sizes[j] > 0,
        },
{
    let mut i: usize = 0;
    while i < sizes.len()
        invariant
            i <= sizes.len(),
            forall|j: int| 0 <= j < i ==> sizes[j] > 0,
        decreases sizes.len() - i,
    {
        if sizes[i] == 0 {
            return Some(i);
        }
        i = i + 1;
    }
    None
}

/// Holds weights and biases against layer sizes.
fn check_layers(sizes: &Vec<usize>, weights: &Vec<Matrix>, biases: &Vec<Matrix>) -> (checked:
    Result<(), FormatError>)
    ensures
        ({
            let model = ModelView {
                sizes: sizes@,
                weights: views(weights@),
                biases: views(biases@),
            };
            match checked {
                Ok(()) => model.consistent(),
                Err(FormatError::Sizes) => !valid_sizes(model.sizes),
                Err(FormatError::LayerCount) => valid_sizes(model.sizes) && !model.layers_counted(),
                Err(FormatError::Shape { layer }) => {
                    &&& valid_sizes(model.sizes)
                    &&& model.layers_counted()
                    &&& layer < model.sizes.len() - 1
                    &&& !model.layer_fits(layer as int)
                    &&& forall|j: int| 0 <= j < layer ==> model.layer_fits(j)
                },
            }
        }),
{
    let ghost model = ModelView { sizes: sizes@, weights: views(weights@), biases: views(biases@) };
    if sizes.len() < 2 {
        return Err(FormatError::Sizes);
    }
    match first_empty_layer(sizes) {
        Some(_) => {
            return Err(FormatError::Sizes);
        },
        None => {},
    }
    let transitions: usize = sizes.len() - 1;
    if weights.len() != transitions || biases.len() != transitions {
        return Err(FormatError::LayerCount);
    }
    let mut i: usize = 0;
    while i < transitions
        invariant
            i <= transitions,
            transitions == sizes.len() - 1,
            weights.len() == transitions,
            biases.len() == transitions,
            model == (ModelView {
                sizes: sizes@,
                weights: views(weights@),
                biases: views(biases@),
            }),
            valid_sizes(sizes@),
            model.layers_counted(),
            forall|j: int| 0 <= j < i ==> model.layer_fits(j),
        decreases transitions - i,
    {
        let fits: bool = weights[i].is_shaped(sizes[i + 1], sizes[i]) && biases[i].is_shaped(
            sizes[i + 1],
            1,
        );
        if !fits {
            return Err(FormatError::Shape { layer: i });
        }
        i = i + 1;
    }
    Ok(())
}

/// The parameters before a layer are among those before any later layer.
proof fn lemma_parameters_monotone(sizes: Seq<usize>, from: nat, to: nat)
    requires
        from <= to,
    ensures
        parameters_before(sizes, from) <= parameters_before(sizes, to),
    decreases to,
{
    if from < to {
        lemma_parameters_monotone(sizes, from, (to - 1) as nat);
    }
}

/// Number of parameters of a network with these layer sizes: how many
/// samples [`Network::new`] takes. `None` where the number is too large to
/// be the length of a vector.
pub fn parameter_count(sizes: &Vec<usize>) -> (count: Option<usize>)
    ensures
        match count {
            Some(n) => n == parameter_count_spec(sizes@),
            None => parameter_count_spec(sizes@) > usize::MAX,
        },
{
    if sizes.len() < 2 {
        return Some(0);
    }
    let transitions: usize = sizes.len() - 1;
    let mut total: usize = 0;
    let mut i: usize = 0;
    while i < transitions
        invariant
            i <= transitions,
            transitions == sizes.len() - 1,
            total == parameters_before(sizes@, i as nat),
        decreases transitions - i,
    {
        let rows: usize = sizes[i + 1];
        let cols: usize = sizes[i];
        proof {
            lemma_parameters_monotone(sizes@, (i + 1) as nat, transitions as nat);
            assert(rows * cols >= 0) by (nonlinear_arith)
                requires
                    rows >= 0,
                    cols >= 0,
            ;
        }
        let weights: Option<usize> = rows.checked_mul(cols);
        let layer: Option<usize> = match weights {
            Some(n) => rows.checked_add(n),
            None => None,
        };
        let next: Option<usize> = match layer {
            Some(n) => total.checked_add(n),
            None => None,
        };
        match next {
            Some(n) => {
                total = n;
            },
            None => {
                return None;
            },
        }
        i = i + 1;
    }
    Some(total)
}

impl Network {
    /// The invariant of a network: its parameters have the shapes that its
    /// layer sizes call for.
    pub open spec fn wf(&self) -> bool {
        self@.consistent()
    }

    /// Builds a network with the given layer sizes from one sample for each
    /// parameter.
    ///
    /// The samples are taken in order: for each pair of adjacent layers
    /// from the input on, first the biases of the later layer, then the
    /// weights between the two, column by column. Drawn independently from
    /// a standard normal distribution they give a randomly initialised
    /// network.
    pub fn new(sizes: Vec<usize>, samples: &Vec<u64>) -> (built: Result<
        Network,
        ConstructionError,
    >)
        ensures
            match built {
                Ok(network) => {
                    &&& valid_sizes(sizes@)
                    &&& samples.len() == parameter_count_spec(sizes@)
                    &&& network.wf()
                    &&& network@ == sampled(sizes@, samples@)
                },
                Err(ConstructionError::TooFewLayers) => sizes.len() < 2,
                Err(ConstructionError::EmptyLayer { layer }) => {
                    &&& sizes.len() >= 2
                    &&& layer < sizes.len()
                    &&& sizes[layer as int] == 0
                    &&& forall|j: int| 0 <= j < layer ==> sizes[j] > 0
                },
                Err(ConstructionError::SampleCount) => {
                    &&& valid_sizes(sizes@)
                    &&& samples.len() != parameter_count_spec(sizes@)
                },
            },
    {
        if sizes.len() < 2 {
            return Err(ConstructionError::TooFewLayers);
        }
        match first_empty_layer(&sizes) {
            Some(layer) => {
                return Err(ConstructionError::EmptyLayer { layer });
            },
            None => {},
        }
        let transitions: usize = sizes.len() - 1;
        let available: usize = samples.len();
        let mut weights: Vec<Matrix> = Vec::new();
        let mut biases: Vec<Matrix> = Vec::new();
        let mut taken: usize = 0;
        let mut i: usize = 0;
        while i < transitions
            invariant
                i <= transitions,
                transitions == sizes.len() - 1,
                available == samples.len(),
                valid_sizes(sizes@),
                taken <= available,
                taken == parameters_before(sizes@, i as nat),
                weights.len() == i,
                biases.len() == i,
                forall|j: int|
                    0 <= j < i ==> (#[trigger] weights@[j])@ == sampled_weight(
                        sizes@,
                        samples@,
                        j,
                    ),
                forall|j: int|
                    0 <= j < i ==> (#[trigger] biases@[j])@ == sampled_bias(sizes@, samples@, j),
            decreases transitions - i,
        {
            let rows: usize = sizes[i + 1];
            let cols: usize = sizes[i];
            proof {
                lemma_parameters_monotone(sizes@, (i + 1) as nat, transitions as nat);
                assert(rows * cols >= 0) by (nonlinear_arith)
                    requires
                        rows >= 0,
                        cols >= 0,
                ;
            }
            if rows > available - taken {
                return Err(ConstructionError::SampleCount);
            }
            let bias_end: usize = taken + rows;
            let places: usize = match rows.checked_mul(cols) {
                Some(n) => n,
                None => {
                    return Err(ConstructionError::SampleCount);
                },
            };
            if places > available - bias_end {
                return Err(ConstructionError::SampleCount);
            }
            let weight_end: usize = bias_end + places;
            biases.push(
                Matrix { rows, cols: 1, entries: copy_range(samples, taken, bias_end) },
            );
            weights.push(
                Matrix { rows, cols, entries: copy_range(samples, bias_end, weight_end) },
            );
            taken = weight_end;
            i = i + 1;
        }
        if taken != available {
            return Err(ConstructionError::SampleCount);
        }
        proof {
            let model = ModelView {
                sizes: sizes@,
                weights: views(weights@),
                biases: views(biases@),
            };
            assert(model.weights =~= sampled(sizes@, samples@).weights);
            assert(model.biases =~= sampled(sizes@, samples@).biases);
            assert forall|j: int| 0 <= j < sizes.len() - 1 implies model.layer_fits(j) by {
                lemma_parameters_monotone(sizes@, (j + 1) as nat, transitions as nat);
                assert(sizes@[j + 1] * sizes@[j] >= 0) by (nonlinear_arith)
                    requires
                        sizes@[j + 1] >= 0,
                        sizes@[j] >= 0,
                ;
                assert(sizes@[j + 1] * 1 == sizes@[j + 1]);
            }
        }
        Ok(Network { model: Model { sizes, weights, biases } })
    }

    /// Rebuilds a network from a record of its parameters. The record is
    /// taken as it is, or not at all.
    pub fn from_model(model: Model) -> (built: Result<Network, FormatError>)
        ensures
            match built {
                Ok(network) => network.wf() && imported(model@) == Some(network@),
                Err(_) => imported(model@) is None,
            },
            match built {
                Ok(_) => true,
                Err(FormatError::Sizes) => !valid_sizes(model@.sizes),
                Err(FormatError::LayerCount) => valid_sizes(model@.sizes)
                    && !model@.layers_counted(),
                Err(FormatError::Shape { layer }) => {
                    &&& valid_sizes(model@.sizes)
                    &&& model@.layers_counted()
                    &&& layer < model@.sizes.len() - 1
                    &&& !model@.layer_fits(layer as int)
                    &&& forall|j: int| 0 <= j < layer ==> model@.layer_fits(j)
                },
            },
    {
        match check_layers(&model.sizes, &model.weights, &model.biases) {
            Ok(()) => Ok(Network { model }),
            Err(fault) => Err(fault),
        }
    }

    /// A record of the parameters: the same sizes, shapes and entries, in
    /// the same order.
    pub fn export_model(&self) -> (record: Model)
        ensures
            record@ == exported(self@),
    {
        let sizes = copy_range(&self.model.sizes, 0, self.model.sizes.len());
        assert(sizes@ =~= self.model.sizes@);
        Model {
            sizes,
            weights: duplicate_all(&self.model.weights),
            biases: duplicate_all(&self.model.biases),
        }
    }

    /// Puts new weights and biases in place of the old ones. They are taken
    /// as they are, or not at all.
    pub fn set_parameters(&mut self, weights: Vec<Matrix>, biases: Vec<Matrix>) -> (set: Result<
        (),
        FormatError,
    >)
        requires
            old(self).wf(),
        ensures
            final(self).wf(),
            ({
                let model = ModelView {
                    sizes: old(self)@.sizes,
                    weights: views(weights@),
                    biases: views(biases@),
                };
                match set {
                    Ok(()) => model.consistent() && final(self)@ == model,
                    Err(fault) => {
                        &&& final(self)@ == old(self)@
                        &&& match fault {
                            FormatError::Sizes => false,
                            FormatError::LayerCount => !model.layers_counted(),
                            FormatError::Shape { layer } => {
                                &&& model.layers_counted()
                                &&& layer < model.sizes.len() - 1
                                &&& !model.layer_fits(layer as int)
                                &&& forall|j: int| 0 <= j < layer ==> model.layer_fits(j)
                            },
                        }
                    },
                }
            }),
    {
        match check_layers(&self.model.sizes, &weights, &biases) {
            Ok(()) => {
                self.model.weights = weights;
                self.model.biases = biases;
                Ok(())
            },
            Err(fault) => Err(fault),
        }
    }

    /// Width of each layer, the input layer first.
    pub fn sizes(&self) -> (sizes: &Vec<usize>)
        ensures
            sizes@ == self@.sizes,
    {
        &self.model.sizes
    }

    /// The weight matrices, from the input layer on.
    pub fn weights(&self) -> (weights: &Vec<Matrix>)
        ensures
            views(weights@) == self@.weights,
    {
        &self.model.weights
    }

    /// The bias columns, from the input layer on.
    pub fn biases(&self) -> (biases: &Vec<Matrix>)
        ensures
            views(biases@) == self@.biases,
    {
        &self.model.biases
    }

    /// Holds the inputs of a prediction against the input layer. No output
    /// is owed for any of them unless every one can be fed to the network.
    pub fn check_inputs(&self, inputs: &Vec<Vec<u64>>) -> (checked: Result<
        (),
        DimensionMismatchError,
    >)
        requires
            self.wf(),
        ensures
            match checked {
                Ok(()) => forall|i: int| 0 <= i < inputs.len() ==> self@.takes(inputs[i]@),
                Err(fault) => {
                    &&& fault.example < inputs.len()
                    &&& !self@.takes(inputs[fault.example as int]@)
                    &&& forall|i: int| 0 <= i < fault.example ==> self@.takes(inputs[i]@)
                    &&& fault.part == Part::Input
                    &&& fault.expected == self@.sizes[0]
                    &&& fault.found == inputs[fault.example as int].len()
                },
            },
    {
        let width: usize = self.model.sizes[0];
        let mut i: usize = 0;
        while i < inputs.len()
            invariant
                i <= inputs.len(),
                width == self@.sizes[0],
                forall|j: int| 0 <= j < i ==> self@.takes(inputs[j]@),
            decreases inputs.len() - i,
        {
            let found: usize = inputs[i].len();
            if found != width {
                return Err(
                    DimensionMismatchError { example: i, part: Part::Input, expected: width, found },
                );
            }
            i = i + 1;
        }
        Ok(())
    }

    /// Starts a training run on `dataset`: `iterations` passes in batches
    /// of `batch_size` examples, shuffled by `rng`, each pass followed by a
    /// scoring of the model where `scoring` is set.
    ///
    /// The whole data set is held against the network before the run
    /// starts. The first example with an input that cannot be fed to the
    /// network, or a target that cannot be held against its output, stops
    /// it; the network is left as it was.
    pub fn train(
        &self,
        dataset: &Vec<Example>,
        iterations: usize,
        batch_size: usize,
        scoring: bool,
        rng: rand::rngs::StdRng,
    ) -> (started: Result<Training, DimensionMismatchError>)
        requires
            self.wf(),
            batch_size > 0,
        ensures
            match started {
                Ok(training) => {
                    &&& forall|i: int| 0 <= i < dataset.len() ==> self@.fits(dataset[i])
                    &&& training.wf()
                    &&& training@ == TrainingView::initial(
                        dataset.len() as nat,
                        iterations as nat,
                        batch_size as nat,
                        scoring,
                    )
                },
                Err(fault) => {
                    &&& fault.example < dataset.len()
                    &&& !self@.fits(dataset[fault.example as int])
                    &&& forall|i: int| 0 <= i < fault.example ==> self@.fits(dataset[i])
                    &&& fault == self@.mismatch(dataset[fault.example as int], fault.example)
                },
            },
    {
        let input_width: usize = self.model.sizes[0];
        let output_width: usize = self.model.sizes[self.model.sizes.len() - 1];
        let mut i: usize = 0;
        while i < dataset.len()
            invariant
                i <= dataset.len(),
                input_width == self@.sizes[0],
                output_width == self@.sizes[self@.sizes.len() - 1],
                forall|j: int| 0 <= j < i ==> self@.fits(dataset[j]),
            decreases dataset.len() - i,
        {
            let input_len: usize = dataset[i].input.len();
            let target_len: usize = dataset[i].target.len();
            if input_len != input_width {
                return Err(
                    DimensionMismatchError {
                        example: i,
                        part: Part::Input,
                        expected: input_width,
                        found: input_len,
                    },
                );
            }
            if target_len != output_width {
                return Err(
                    DimensionMismatchError {
                        example: i,
                        part: Part::Target,
                        expected: output_width,
                        found: target_len,
                    },
                );
            }
            i = i + 1;
        }
        Ok(Training::start(dataset.len(), iterations, batch_size, scoring, rng))
    }

    /// In every network, the weights between a layer and the next form a
    /// matrix with a row for each unit of the next layer and a column for
    /// each unit of this one, and the biases a single column with a row for
    /// each unit of the next layer.
    pub proof fn lemma_shapes(&self, layer: int)
        requires
            self.wf(),
            0 <= layer < self@.sizes.len() - 1,
        ensures
            self@.weights.len() == self@.sizes.len() - 1,
            self@.biases.len() == self@.sizes.len() - 1,
            self@.weights[layer].rows == self@.sizes[layer + 1],
            self@.weights[layer].cols == self@.sizes[layer],
            self@.weights[layer].entries.len() == self@.sizes[layer + 1] * self@.sizes[layer],
            self@.biases[layer].rows == self@.sizes[layer + 1],
            self@.biases[layer].cols == 1,
            self@.biases[layer].entries.len() == self@.sizes[layer + 1],
    {
        assert(self@.layer_fits(layer));
        assert(self@.sizes[layer + 1] * 1 == self@.sizes[layer + 1]);
    }
}

} // verus!
