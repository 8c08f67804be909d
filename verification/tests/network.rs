use rand::rngs::StdRng;
use rand::SeedableRng;
use rust_neural_network::error::{
    ConstructionError, DimensionMismatchError, FormatError, Part,
};
use rust_neural_network::matrix::Matrix;
use rust_neural_network::network::{parameter_count, Example, Model, Network};

fn words(values: &[f64]) -> Vec<u64> {
    values.iter().map(|v| v.to_bits()).collect()
}

/// `count` different words, none of them zero.
fn distinct(count: usize) -> Vec<u64> {
    let mut samples: Vec<u64> = Vec::new();
    let mut i: usize = 0;
    while i < count {
        samples.push((i as f64 * 0.125 - 1.0).to_bits());
        i += 1;
    }
    samples
}

fn xor_network() -> Network {
    match Network::new(vec![2, 3, 1], &distinct(13)) {
        Ok(network) => network,
        Err(fault) => panic!("{:?}", fault),
    }
}

fn matrix(rows: usize, cols: usize, entries: &[f64]) -> Matrix {
    Matrix { rows, cols, entries: words(entries) }
}

fn small_model() -> Model {
    Model {
        sizes: vec![2, 2, 1],
        weights: vec![
            matrix(2, 2, &[0.5, -0.25, 1.5, 2.0]),
            matrix(1, 2, &[-1.0, 0.75]),
        ],
        biases: vec![matrix(2, 1, &[0.1, -0.1]), matrix(1, 1, &[0.3])],
    }
}

#[test]
fn parameter_count_adds_weights_and_biases() {
    assert_eq!(parameter_count(&vec![2, 3, 1]), Some(13));
    assert_eq!(parameter_count(&vec![4, 5, 3, 2]), Some(51));
    assert_eq!(parameter_count(&vec![1, 1]), Some(2));
    assert_eq!(parameter_count(&vec![784, 30, 10]), Some(23860));
}

#[test]
fn parameter_count_of_less_than_two_layers_is_zero() {
    assert_eq!(parameter_count(&vec![]), Some(0));
    assert_eq!(parameter_count(&vec![7]), Some(0));
}

#[test]
fn parameter_count_that_no_vector_can_hold_is_none() {
    assert_eq!(parameter_count(&vec![usize::MAX, usize::MAX]), None);
    assert_eq!(parameter_count(&vec![1, usize::MAX]), None);
    assert_eq!(parameter_count(&vec![usize::MAX, 1, 1]), None);
    assert_eq!(parameter_count(&vec![0, usize::MAX]), Some(usize::MAX));
}

#[test]
fn new_gives_each_layer_its_shapes() {
    let sizes: Vec<usize> = vec![4, 5, 3, 2];
    let network = match Network::new(sizes.clone(), &distinct(51)) {
        Ok(network) => network,
        Err(fault) => panic!("{:?}", fault),
    };
    assert_eq!(network.sizes(), &sizes);
    assert_eq!(network.weights().len(), 3);
    assert_eq!(network.biases().len(), 3);
    let mut i: usize = 0;
    while i + 1 < sizes.len() {
        let weight = &network.weights()[i];
        let bias = &network.biases()[i];
        assert_eq!((weight.rows, weight.cols), (sizes[i + 1], sizes[i]));
        assert_eq!(weight.entries.len(), sizes[i + 1] * sizes[i]);
        assert_eq!((bias.rows, bias.cols), (sizes[i + 1], 1));
        assert_eq!(bias.entries.len(), sizes[i + 1]);
        i += 1;
    }
}

#[test]
fn new_takes_the_samples_in_order() {
    let samples = distinct(13);
    let network = xor_network();
    assert_eq!(network.biases()[0].entries, samples[0..3].to_vec());
    assert_eq!(network.weights()[0].entries, samples[3..9].to_vec());
    assert_eq!(network.biases()[1].entries, samples[9..10].to_vec());
    assert_eq!(network.weights()[1].entries, samples[10..13].to_vec());
}

#[test]
fn new_rejects_fewer_than_two_layers() {
    assert_eq!(
        Network::new(vec![], &Vec::new()).err(),
        Some(ConstructionError::TooFewLayers)
    );
    assert_eq!(
        Network::new(vec![3], &Vec::new()).err(),
        Some(ConstructionError::TooFewLayers)
    );
    assert_eq!(
        Network::new(vec![0], &Vec::new()).err(),
        Some(ConstructionError::TooFewLayers)
    );
}

#[test]
fn new_rejects_a_layer_without_units() {
    assert_eq!(
        Network::new(vec![2, 0, 1], &distinct(13)).err(),
        Some(ConstructionError::EmptyLayer { layer: 1 })
    );
    assert_eq!(
        Network::new(vec![0, 0], &Vec::new()).err(),
        Some(ConstructionError::EmptyLayer { layer: 0 })
    );
    assert_eq!(
        Network::new(vec![2, 3, 0], &distinct(9)).err(),
        Some(ConstructionError::EmptyLayer { layer: 2 })
    );
}

#[test]
fn new_rejects_a_wrong_number_of_samples() {
    assert_eq!(
        Network::new(vec![2, 3, 1], &distinct(12)).err(),
        Some(ConstructionError::SampleCount)
    );
    assert_eq!(
        Network::new(vec![2, 3, 1], &distinct(14)).err(),
        Some(ConstructionError::SampleCount)
    );
    assert_eq!(
        Network::new(vec![2, 3, 1], &Vec::new()).err(),
        Some(ConstructionError::SampleCount)
    );
    assert_eq!(
        Network::new(vec![usize::MAX, usize::MAX], &distinct(4)).err(),
        Some(ConstructionError::SampleCount)
    );
    assert!(Network::new(vec![2, 3, 1], &distinct(13)).is_ok());
}

#[test]
fn export_then_import_gives_the_same_network() {
    let network = xor_network();
    let record = network.export_model();
    assert_eq!(record.sizes, vec![2, 3, 1]);
    assert_eq!(&record.weights, network.weights());
    assert_eq!(&record.biases, network.biases());
    let rebuilt = match Network::from_model(record) {
        Ok(rebuilt) => rebuilt,
        Err(fault) => panic!("{:?}", fault),
    };
    assert_eq!(rebuilt, network);
    assert_eq!(rebuilt.export_model(), network.export_model());
}

#[test]
fn import_keeps_every_bit() {
    let odd: Vec<u64> = vec![
        f64::NAN.to_bits(),
        0xFFF8_0000_0000_0001,
        (-0.0f64).to_bits(),
        f64::from_bits(1).to_bits(),
        f64::INFINITY.to_bits(),
        0.1f64.to_bits(),
    ];
    let record = Model {
        sizes: vec![2, 2],
        weights: vec![Matrix { rows: 2, cols: 2, entries: odd[0..4].to_vec() }],
        biases: vec![Matrix { rows: 2, cols: 1, entries: odd[4..6].to_vec() }],
    };
    let network = match Network::from_model(record) {
        Ok(network) => network,
        Err(fault) => panic!("{:?}", fault),
    };
    assert_eq!(network.weights()[0].entries, odd[0..4].to_vec());
    assert_eq!(network.biases()[0].entries, odd[4..6].to_vec());
    assert_eq!(network.export_model().weights[0].entries, odd[0..4].to_vec());
}

#[test]
fn import_accepts_a_consistent_record() {
    let network = match Network::from_model(small_model()) {
        Ok(network) => network,
        Err(fault) => panic!("{:?}", fault),
    };
    assert_eq!(network.export_model(), small_model());
}

#[test]
fn import_rejects_bad_sizes() {
    let mut short = small_model();
    short.sizes = vec![2];
    assert_eq!(Network::from_model(short).err(), Some(FormatError::Sizes));
    let mut empty = small_model();
    empty.sizes = vec![2, 0, 1];
    assert_eq!(Network::from_model(empty).err(), Some(FormatError::Sizes));
    let none = Model { sizes: vec![], weights: vec![], biases: vec![] };
    assert_eq!(Network::from_model(none).err(), Some(FormatError::Sizes));
}

#[test]
fn import_rejects_a_wrong_number_of_layers() {
    let mut fewer = small_model();
    fewer.weights.pop();
    assert_eq!(Network::from_model(fewer).err(), Some(FormatError::LayerCount));
    let mut more = small_model();
    more.biases.push(matrix(1, 1, &[0.0]));
    assert_eq!(Network::from_model(more).err(), Some(FormatError::LayerCount));
    let mut longer = small_model();
    longer.sizes.push(1);
    assert_eq!(Network::from_model(longer).err(), Some(FormatError::LayerCount));
}

#[test]
fn import_rejects_the_first_wrong_shape() {
    let mut transposed = small_model();
    transposed.weights[1] = matrix(2, 1, &[-1.0, 0.75]);
    assert_eq!(
        Network::from_model(transposed).err(),
        Some(FormatError::Shape { layer: 1 })
    );
    let mut wide_bias = small_model();
    wide_bias.biases[0] = matrix(1, 2, &[0.1, -0.1]);
    assert_eq!(
        Network::from_model(wide_bias).err(),
        Some(FormatError::Shape { layer: 0 })
    );
    let mut both = small_model();
    both.weights[0] = matrix(2, 3, &[0.0, 0.0, 0.0, 0.0, 0.0, 0.0]);
    both.biases[1] = matrix(2, 1, &[0.0, 0.0]);
    assert_eq!(Network::from_model(both).err(), Some(FormatError::Shape { layer: 0 }));
}

#[test]
fn import_rejects_entries_that_do_not_fill_the_shape() {
    let mut missing = small_model();
    missing.weights[0].entries.pop();
    assert_eq!(
        Network::from_model(missing).err(),
        Some(FormatError::Shape { layer: 0 })
    );
    let mut extra = small_model();
    extra.biases[1].entries.push(0);
    assert_eq!(
        Network::from_model(extra).err(),
        Some(FormatError::Shape { layer: 1 })
    );
}

#[test]
fn set_parameters_replaces_weights_and_biases() {
    let mut network = match Network::from_model(small_model()) {
        Ok(network) => network,
        Err(fault) => panic!("{:?}", fault),
    };
    let weights = vec![matrix(2, 2, &[9.0, 8.0, 7.0, 6.0]), matrix(1, 2, &[5.0, 4.0])];
    let biases = vec![matrix(2, 1, &[3.0, 2.0]), matrix(1, 1, &[1.0])];
    assert_eq!(
        network.set_parameters(
            vec![matrix(2, 2, &[9.0, 8.0, 7.0, 6.0]), matrix(1, 2, &[5.0, 4.0])],
            vec![matrix(2, 1, &[3.0, 2.0]), matrix(1, 1, &[1.0])],
        ),
        Ok(())
    );
    assert_eq!(network.sizes(), &vec![2, 2, 1]);
    assert_eq!(network.weights(), &weights);
    assert_eq!(network.biases(), &biases);
}

#[test]
fn set_parameters_leaves_the_network_alone_when_it_fails() {
    let mut network = match Network::from_model(small_model()) {
        Ok(network) => network,
        Err(fault) => panic!("{:?}", fault),
    };
    assert_eq!(
        network.set_parameters(
            vec![matrix(2, 2, &[9.0, 8.0, 7.0, 6.0])],
            vec![matrix(2, 1, &[3.0, 2.0]), matrix(1, 1, &[1.0])],
        ),
        Err(FormatError::LayerCount)
    );
    assert_eq!(network.export_model(), small_model());
    assert_eq!(
        network.set_parameters(
            vec![matrix(2, 2, &[9.0, 8.0, 7.0, 6.0]), matrix(1, 2, &[5.0, 4.0])],
            vec![matrix(2, 1, &[3.0, 2.0]), matrix(1, 2, &[1.0, 1.0])],
        ),
        Err(FormatError::Shape { layer: 1 })
    );
    assert_eq!(network.export_model(), small_model());
}

#[test]
fn check_inputs_accepts_inputs_of_the_input_width() {
    let network = xor_network();
    assert_eq!(network.check_inputs(&Vec::new()), Ok(()));
    assert_eq!(
        network.check_inputs(&vec![words(&[0.0, 0.0]), words(&[1.0, 0.0])]),
        Ok(())
    );
}

#[test]
fn check_inputs_reports_the_first_input_of_another_width() {
    let network = xor_network();
    let before = network.export_model();
    assert_eq!(
        network.check_inputs(&vec![
            words(&[0.0, 0.0]),
            words(&[1.0, 0.0, 1.0]),
            words(&[1.0]),
        ]),
        Err(DimensionMismatchError { example: 1, part: Part::Input, expected: 2, found: 3 })
    );
    assert_eq!(
        network.check_inputs(&vec![Vec::new()]),
        Err(DimensionMismatchError { example: 0, part: Part::Input, expected: 2, found: 0 })
    );
    assert_eq!(network.export_model(), before);
}

fn xor_examples() -> Vec<Example> {
    vec![
        Example { input: words(&[0.0, 0.0]), target: words(&[0.0]) },
        Example { input: words(&[0.0, 1.0]), target: words(&[1.0]) },
        Example { input: words(&[1.0, 0.0]), target: words(&[1.0]) },
        Example { input: words(&[1.0, 1.0]), target: words(&[0.0]) },
    ]
}

#[test]
fn train_starts_on_examples_that_fit() {
    let network = xor_network();
    assert!(network.train(&xor_examples(), 3, 4, false, StdRng::seed_from_u64(1)).is_ok());
    assert!(network.train(&Vec::new(), 3, 4, true, StdRng::seed_from_u64(1)).is_ok());
}

#[test]
fn train_rejects_an_input_of_another_width() {
    let network = xor_network();
    let before = network.export_model();
    let mut examples = xor_examples();
    examples[2].input = words(&[1.0, 0.0, 0.5]);
    examples[3].input = words(&[1.0]);
    assert_eq!(
        network.train(&examples, 10, 2, false, StdRng::seed_from_u64(1)).err(),
        Some(DimensionMismatchError { example: 2, part: Part::Input, expected: 2, found: 3 })
    );
    assert_eq!(network.export_model(), before);
}

#[test]
fn train_rejects_a_target_of_another_width() {
    let network = xor_network();
    let before = network.export_model();
    let mut examples = xor_examples();
    examples[1].target = words(&[1.0, 0.0]);
    assert_eq!(
        network.train(&examples, 10, 2, false, StdRng::seed_from_u64(1)).err(),
        Some(DimensionMismatchError { example: 1, part: Part::Target, expected: 1, found: 2 })
    );
    assert_eq!(network.export_model(), before);
}

#[test]
fn train_looks_at_the_input_before_the_target() {
    let network = xor_network();
    let mut examples = xor_examples();
    examples[0].target = Vec::new();
    examples[0].input = Vec::new();
    assert_eq!(
        network.train(&examples, 1, 1, true, StdRng::seed_from_u64(1)).err(),
        Some(DimensionMismatchError { example: 0, part: Part::Input, expected: 2, found: 0 })
    );
}
