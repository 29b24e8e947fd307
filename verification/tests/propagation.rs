use neuroevolution::network::{
    Gene, GeneSource, Layer, LayerTopology, Network, NetworkError, Neuron, RealArithmetic,
};
use rand::Rng;
use rand::SeedableRng;
use rand_chacha::ChaCha8Rng;

struct UnitInterval;

impl GeneSource for UnitInterval {
    fn may_draw(&self, gene: Gene) -> bool {
        let value = f32::from_bits(gene);
        -1.0 <= value && value <= 1.0
    }

    fn draw(&self, rng: &mut ChaCha8Rng) -> Gene {
        let value: f32 = rng.gen_range(-1.0..=1.0);
        value.to_bits()
    }
}

struct Floats;

impl RealArithmetic for Floats {
    fn zero_spec(&self) -> Gene {
        self.zero()
    }

    fn sum_spec(&self, a: Gene, b: Gene) -> Gene {
        self.sum(a, b)
    }

    fn product_spec(&self, a: Gene, b: Gene) -> Gene {
        self.product(a, b)
    }

    fn larger_spec(&self, a: Gene, b: Gene) -> Gene {
        self.larger(a, b)
    }

    fn zero(&self) -> Gene {
        0.0f32.to_bits()
    }

    fn sum(&self, a: Gene, b: Gene) -> Gene {
        (f32::from_bits(a) + f32::from_bits(b)).to_bits()
    }

    fn product(&self, a: Gene, b: Gene) -> Gene {
        (f32::from_bits(a) * f32::from_bits(b)).to_bits()
    }

    fn larger(&self, a: Gene, b: Gene) -> Gene {
        f32::from_bits(a).max(f32::from_bits(b)).to_bits()
    }
}

fn genes(values: &[f32]) -> Vec<Gene> {
    values.iter().map(|value| value.to_bits()).collect()
}

fn reals(genes: &[Gene]) -> Vec<f32> {
    genes.iter().map(|&gene| f32::from_bits(gene)).collect()
}

fn neuron(bias: f32, weights: &[f32]) -> Neuron {
    Neuron { bias: bias.to_bits(), weights: genes(weights) }
}

fn relative_eq(a: f32, b: f32) -> bool {
    let difference = (a - b).abs();
    difference <= f32::EPSILON || difference <= a.abs().max(b.abs()) * f32::EPSILON
}

#[test]
fn test_neuron() {
    let mut rng = ChaCha8Rng::from_seed(Default::default());
    let neuron = Neuron::random(&mut rng, 4, &UnitInterval);

    assert!(relative_eq(f32::from_bits(neuron.bias), -0.6255188));
    let weights = reals(&neuron.weights);
    let expected = [0.67383957, 0.8181262, 0.26284897, 0.5238807];
    assert_eq!(weights.len(), expected.len());
    for i in 0..expected.len() {
        assert!(relative_eq(weights[i], expected[i]));
    }
}

#[test]
fn test_layer() {
    let mut rng = ChaCha8Rng::from_seed(Default::default());
    let layer = Layer::random(&mut rng, 4, 2, &UnitInterval);

    assert_eq!(layer.neurons.len(), 2);
}

#[test]
fn test_network() {
    let layers = vec![
        LayerTopology { neurons: 4 },
        LayerTopology { neurons: 2 },
        LayerTopology { neurons: 1 },
    ];
    let mut rng = ChaCha8Rng::from_seed(Default::default());
    let network = Network::random(&mut rng, &layers, &UnitInterval).unwrap();

    assert_eq!(network.layers[0].neurons.len(), 2);
    assert_eq!(network.layers[1].neurons.len(), 1);
}

#[test]
fn lib_test_neuron() {
    let neuron = neuron(0.5, &[-0.3, 0.8]);

    let low = neuron.propagate(&genes(&[-10.0, -10.0]), &Floats).unwrap();
    assert!(relative_eq(f32::from_bits(low), 0.0));

    let high = neuron.propagate(&genes(&[0.5, 1.0]), &Floats).unwrap();
    assert!(relative_eq(f32::from_bits(high), (-0.3 * 0.5) + (0.8 * 1.0) + 0.5));
}

#[test]
fn lib_test_layer() {
    let neuron_1 = neuron(0.5, &[0.5, 1.0]);
    let neuron_2 = neuron(0.7, &[-10.0, -10.0]);
    let layer = Layer { neurons: vec![neuron_1, neuron_2] };

    let outputs = layer.propagate(&genes(&[-0.3, 0.8]), &Floats).unwrap();
    assert_eq!(reals(&outputs), [(-0.3 * 0.5) + (0.8 * 1.0) + 0.5, 0.0]);
}

#[test]
fn lib_test_network() {
    let neuron_1 = neuron(-0.5, &[0.5, 1.0]);
    let neuron_2 = neuron(0.7, &[-10.0, -10.0]);
    let neuron_3 = neuron(0.3, &[0.2, 0.8]);
    let layer_1 = Layer { neurons: vec![neuron_1, neuron_2] };
    let layer_2 = Layer { neurons: vec![neuron_3] };
    let network = Network { layers: vec![layer_1, layer_2] };

    let outputs = network.propagate(genes(&[-1.0, 1.0]), &Floats).unwrap();
    assert_eq!(reals(&outputs).as_slice(), [0.86]);
}

#[test]
fn random_network_draws_genes_in_layout_order() {
    let layers = vec![
        LayerTopology { neurons: 3 },
        LayerTopology { neurons: 2 },
        LayerTopology { neurons: 2 },
    ];
    let mut rng = ChaCha8Rng::from_seed([8; 32]);
    let network = Network::random(&mut rng, &layers, &UnitInterval).unwrap();
    let mut rng = ChaCha8Rng::from_seed([8; 32]);
    let drawn: Vec<Gene> = (0..14).map(|_| UnitInterval.draw(&mut rng)).collect();
    assert_eq!(network.weights(), drawn);
    assert_eq!(Network::from_weights(&layers, &drawn), Ok(network));
    for gene in drawn {
        let value = f32::from_bits(gene);
        assert!(-1.0 <= value && value <= 1.0);
    }
}

#[test]
fn random_network_round_trips() {
    let layers = vec![
        LayerTopology { neurons: 5 },
        LayerTopology { neurons: 4 },
        LayerTopology { neurons: 3 },
    ];
    let mut rng = ChaCha8Rng::from_seed([11; 32]);
    let network = Network::random(&mut rng, &layers, &UnitInterval).unwrap();
    let decoded = Network::from_weights(&layers, &network.weights()).unwrap();
    assert_eq!(decoded, network);
}

#[test]
fn random_network_needs_two_topology_entries() {
    let mut rng = ChaCha8Rng::from_seed(Default::default());
    let one = vec![LayerTopology { neurons: 4 }];
    assert_eq!(
        Network::random(&mut rng, &one, &UnitInterval),
        Err(NetworkError::TopologyTooShort)
    );
    assert_eq!(Network::random(&mut rng, &[], &UnitInterval), Err(NetworkError::TopologyTooShort));
}

#[test]
fn zero_network_gives_a_zero_vector() {
    let layers = vec![
        LayerTopology { neurons: 3 },
        LayerTopology { neurons: 4 },
        LayerTopology { neurons: 2 },
    ];
    let network = Network::from_weights(&layers, &genes(&[0.0; 26])).unwrap();
    for inputs in [[1.0, -2.0, 3.5], [0.0, 0.0, 0.0], [-100.0, 250.0, 0.125]] {
        let outputs = network.propagate(genes(&inputs), &Floats).unwrap();
        assert_eq!(reals(&outputs), vec![0.0, 0.0]);
    }
}

#[test]
fn propagate_refuses_a_signal_of_the_wrong_width() {
    let neuron_1 = neuron(0.5, &[0.5, 1.0]);
    assert_eq!(neuron_1.propagate(&genes(&[1.0]), &Floats), Err(NetworkError::InputMismatch));
    assert_eq!(
        neuron_1.propagate(&genes(&[1.0, 2.0, 3.0]), &Floats),
        Err(NetworkError::InputMismatch)
    );
    let layer = Layer { neurons: vec![neuron_1.clone(), neuron(0.1, &[1.0])] };
    assert_eq!(layer.propagate(&genes(&[1.0, 2.0]), &Floats), Err(NetworkError::InputMismatch));
    let network = Network { layers: vec![Layer { neurons: vec![neuron_1] }] };
    assert_eq!(network.propagate(genes(&[1.0]), &Floats), Err(NetworkError::InputMismatch));
    assert!(network.propagate(genes(&[1.0, 2.0]), &Floats).is_ok());
}

#[test]
fn propagate_refuses_layers_that_do_not_fit() {
    let first = Layer { neurons: vec![neuron(0.0, &[1.0]), neuron(0.0, &[1.0])] };
    let second = Layer { neurons: vec![neuron(0.0, &[1.0, 1.0, 1.0])] };
    let network = Network { layers: vec![first, second] };
    assert_eq!(network.propagate(genes(&[1.0]), &Floats), Err(NetworkError::InputMismatch));
}

#[test]
fn propagate_through_no_layer_gives_the_signal_back() {
    let network = Network { layers: vec![] };
    assert_eq!(network.propagate(vec![1, 2, 3], &Floats), Ok(vec![1, 2, 3]));
}

#[test]
fn propagate_gives_one_output_per_neuron_of_the_last_layer() {
    let layers = vec![
        LayerTopology { neurons: 4 },
        LayerTopology { neurons: 6 },
        LayerTopology { neurons: 3 },
    ];
    let mut rng = ChaCha8Rng::from_seed([1; 32]);
    let network = Network::random(&mut rng, &layers, &UnitInterval).unwrap();
    let outputs = network.propagate(genes(&[0.1, 0.2, 0.3, 0.4]), &Floats).unwrap();
    assert_eq!(outputs.len(), 3);
    for output in reals(&outputs) {
        assert!(output >= 0.0);
    }
}

#[test]
fn decoded_network_answers_as_the_first_does() {
    let layers = vec![
        LayerTopology { neurons: 3 },
        LayerTopology { neurons: 4 },
        LayerTopology { neurons: 2 },
    ];
    let mut rng = ChaCha8Rng::from_seed([21; 32]);
    let network = Network::random(&mut rng, &layers, &UnitInterval).unwrap();
    let decoded = Network::from_weights(&layers, &network.weights()).unwrap();
    let inputs = genes(&[0.25, -0.5, 0.75]);
    let first = network.propagate(inputs.clone(), &Floats);
    assert_eq!(decoded.propagate(inputs.clone(), &Floats), first);
    assert_eq!(network.propagate(inputs, &Floats), first);
}

#[test]
fn network_answer_is_the_layers_in_order() {
    let layers = vec![
        LayerTopology { neurons: 2 },
        LayerTopology { neurons: 3 },
        LayerTopology { neurons: 2 },
    ];
    let mut rng = ChaCha8Rng::from_seed([22; 32]);
    let network = Network::random(&mut rng, &layers, &UnitInterval).unwrap();
    let inputs = genes(&[0.5, -0.25]);
    let hidden = network.layers[0].propagate(&inputs, &Floats).unwrap();
    let outputs = network.layers[1].propagate(&hidden, &Floats).unwrap();
    assert_eq!(network.propagate(inputs.clone(), &Floats), Ok(outputs));
    for (j, neuron) in network.layers[0].neurons.iter().enumerate() {
        assert_eq!(neuron.propagate(&inputs, &Floats), Ok(hidden[j]));
    }
}

#[test]
fn neuron_without_inputs_answers_with_its_bias_or_zero() {
    let positive = neuron(0.75, &[]);
    assert_eq!(positive.propagate(&[], &Floats), Ok(0.75f32.to_bits()));
    let negative = neuron(-0.75, &[]);
    assert_eq!(negative.propagate(&[], &Floats), Ok(0.0f32.to_bits()));
}

#[test]
fn random_genes_are_what_the_source_may_draw() {
    let mut rng = ChaCha8Rng::from_seed([23; 32]);
    let neuron = Neuron::random(&mut rng, 6, &UnitInterval);
    assert!(UnitInterval.may_draw(neuron.bias));
    for weight in &neuron.weights {
        assert!(UnitInterval.may_draw(*weight));
    }
    assert!(neuron.weights.iter().any(|&weight| weight != 0));
}

#[test]
fn reading_past_the_end_gives_nothing() {
    let genes = genes(&[0.1, 0.2, 0.3]);
    assert_eq!(Neuron::from_weights(&genes, 4, 0), None);
    assert_eq!(Neuron::from_weights(&genes, usize::MAX, 2), None);
    assert_eq!(Layer::from_weights(&genes, 4, 1, 1), None);
    assert_eq!(Layer::from_weights(&genes, 4, 1, 0), None);
    assert!(Layer::from_weights(&genes, 3, 1, 0).is_some());
}
