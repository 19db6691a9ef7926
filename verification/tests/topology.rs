use mlp_trainer::{Activation, ConfigurationError, LayerRole, ShapeMismatch, Topology};

fn mnist() -> Topology {
    Topology::new(&[784, 128, 64, 10], 3).unwrap()
}

fn fitting(sizes: &[usize]) -> Vec<Vec<usize>> {
    let mut counts = Vec::new();
    for l in 0..sizes.len() {
        let fan_in = if l == 0 { 0 } else { sizes[l - 1] };
        counts.push(vec![fan_in; sizes[l]]);
    }
    counts
}

#[test]
fn a_topology_keeps_its_layer_sizes() {
    let topology = mnist();
    assert_eq!(topology.layer_count(), 4);
    assert_eq!(topology.input_size(), 784);
    assert_eq!(topology.output_size(), 10);
    assert_eq!(topology.layer_size(0), Some(784));
    assert_eq!(topology.layer_size(2), Some(64));
    assert_eq!(topology.layer_size(3), Some(10));
    assert_eq!(topology.layer_size(4), None);
}

#[test]
fn two_layers_are_enough() {
    let topology = Topology::new(&[2, 2], 1).unwrap();
    assert_eq!(topology.layer_count(), 2);
    assert_eq!(topology.role(0), Some(LayerRole::Input));
    assert_eq!(topology.role(1), Some(LayerRole::Output));
}

#[test]
fn fewer_than_two_layers_are_refused() {
    assert_eq!(Topology::new(&[], 0).err(), Some(ConfigurationError::TooFewLayers));
    assert_eq!(Topology::new(&[784], 0).err(), Some(ConfigurationError::TooFewLayers));
    assert_eq!(Topology::new(&[784], 1).err(), Some(ConfigurationError::TooFewLayers));
}

#[test]
fn a_wrong_number_of_activations_is_refused() {
    assert_eq!(Topology::new(&[784, 10], 0).err(), Some(ConfigurationError::ActivationCount));
    assert_eq!(Topology::new(&[784, 10], 2).err(), Some(ConfigurationError::ActivationCount));
    assert_eq!(
        Topology::new(&[784, 128, 10], 3).err(),
        Some(ConfigurationError::ActivationCount)
    );
    assert!(Topology::new(&[784, 128, 10], 2).is_ok());
}

#[test]
fn roles_follow_the_place_of_a_layer() {
    let topology = mnist();
    assert_eq!(topology.role(0), Some(LayerRole::Input));
    assert_eq!(topology.role(1), Some(LayerRole::Hidden));
    assert_eq!(topology.role(2), Some(LayerRole::Hidden));
    assert_eq!(topology.role(3), Some(LayerRole::Output));
    assert_eq!(topology.role(4), None);
}

#[test]
fn an_input_of_the_wrong_length_is_refused() {
    let topology = mnist();
    assert_eq!(topology.check_input(784), Ok(()));
    assert_eq!(topology.check_input(783), Err(ShapeMismatch::Input));
    assert_eq!(topology.check_input(0), Err(ShapeMismatch::Input));
    assert_eq!(topology.check_input(10), Err(ShapeMismatch::Input));
}

#[test]
fn a_target_of_the_wrong_length_is_refused() {
    let topology = mnist();
    assert_eq!(topology.check_target(10), Ok(()));
    assert_eq!(topology.check_target(11), Err(ShapeMismatch::Target));
    assert_eq!(topology.check_target(784), Err(ShapeMismatch::Target));
}

#[test]
fn a_fitting_network_is_accepted() {
    let topology = mnist();
    assert_eq!(topology.check_network(&fitting(&[784, 128, 64, 10])), Ok(()));
    let small = Topology::new(&[2, 2], 1).unwrap();
    assert_eq!(small.check_network(&[vec![0, 0], vec![2, 2]]), Ok(()));
}

#[test]
fn input_neurons_may_hold_anything() {
    let small = Topology::new(&[2, 3], 1).unwrap();
    assert_eq!(small.check_network(&[vec![5, 0], vec![2, 2, 2]]), Ok(()));
}

#[test]
fn a_network_with_other_layers_is_refused() {
    let topology = mnist();
    assert_eq!(
        topology.check_network(&fitting(&[784, 128, 10])),
        Err(ShapeMismatch::LayerCount)
    );
    assert_eq!(topology.check_network(&[]), Err(ShapeMismatch::LayerCount));
}

#[test]
fn a_layer_of_the_wrong_size_is_named() {
    let topology = Topology::new(&[3, 4, 2], 2).unwrap();
    let mut counts = fitting(&[3, 4, 2]);
    counts[1].pop();
    assert_eq!(topology.check_network(&counts), Err(ShapeMismatch::NeuronCount { layer: 1 }));
    let mut counts = fitting(&[3, 4, 2]);
    counts[0].push(0);
    assert_eq!(topology.check_network(&counts), Err(ShapeMismatch::NeuronCount { layer: 0 }));
}

#[test]
fn a_neuron_with_the_wrong_weights_is_named() {
    let topology = Topology::new(&[3, 4, 2], 2).unwrap();
    let mut counts = fitting(&[3, 4, 2]);
    counts[2][1] = 3;
    assert_eq!(
        topology.check_network(&counts),
        Err(ShapeMismatch::WeightCount { layer: 2, neuron: 1 })
    );
    counts[1][3] = 0;
    counts[1][2] = 4;
    assert_eq!(
        topology.check_network(&counts),
        Err(ShapeMismatch::WeightCount { layer: 1, neuron: 2 })
    );
}

#[test]
fn the_first_fault_is_the_one_named() {
    let topology = Topology::new(&[3, 4, 2], 2).unwrap();
    let mut counts = fitting(&[3, 4, 2]);
    counts[1][0] = 9;
    counts[2].push(4);
    assert_eq!(
        topology.check_network(&counts),
        Err(ShapeMismatch::WeightCount { layer: 1, neuron: 0 })
    );
    counts[1].push(3);
    assert_eq!(topology.check_network(&counts), Err(ShapeMismatch::NeuronCount { layer: 1 }));
}

#[test]
fn names_select_their_activation() {
    assert_eq!(Activation::from_name("sigmoid".as_bytes()), Activation::Sigmoid);
    assert_eq!(Activation::from_name("relu".as_bytes()), Activation::ReLU);
    assert_eq!(Activation::from_name("softmax".as_bytes()), Activation::Softmax);
}

#[test]
fn other_names_select_the_sigmoid() {
    assert_eq!(Activation::from_name("".as_bytes()), Activation::Sigmoid);
    assert_eq!(Activation::from_name("tanh".as_bytes()), Activation::Sigmoid);
    assert_eq!(Activation::from_name("ReLU".as_bytes()), Activation::Sigmoid);
    assert_eq!(Activation::from_name("relu ".as_bytes()), Activation::Sigmoid);
    assert_eq!(Activation::from_name("softmat".as_bytes()), Activation::Sigmoid);
    assert_eq!(Activation::from_name("rely".as_bytes()), Activation::Sigmoid);
}
