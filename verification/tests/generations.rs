use neuroevolution::genetic::{
    GeneticAlgorithm, Individual, Perturbation, RateMutation, RouletteWheelSelection,
    TestIndividual, UniformCrossover,
};
use neuroevolution::network::{Gene, LayerTopology, Network};
use rand::SeedableRng;
use rand_chacha::ChaCha8Rng;

struct Increment;

impl Perturbation for Increment {
    fn yields(&self, gene: Gene, out: Gene) -> bool {
        out == gene.wrapping_add(1)
    }

    fn perturb(&self, _rng: &mut ChaCha8Rng, gene: Gene) -> Gene {
        gene.wrapping_add(1)
    }
}

#[test]
fn evolved_chromosomes_decode_into_networks() {
    let layers = vec![LayerTopology { neurons: 2 }, LayerTopology { neurons: 2 }];
    let population = vec![
        TestIndividual { fitness: 3, chromosome: vec![1, 2, 3, 4, 5, 6] },
        TestIndividual { fitness: 1, chromosome: vec![11, 12, 13, 14, 15, 16] },
    ];
    let ga = GeneticAlgorithm::new(
        RouletteWheelSelection::new(),
        UniformCrossover::new(),
        RateMutation::new(1, 3, Increment).ok().unwrap(),
    );
    let mut rng = ChaCha8Rng::from_seed(Default::default());
    let next = ga.evolve(&mut rng, &population).unwrap();
    assert_eq!(next.len(), 2);
    for individual in &next {
        let network = Network::from_weights(&layers, individual.chromosome()).unwrap();
        assert_eq!(network.weights(), individual.chromosome);
        assert_eq!(individual.fitness(), 0);
    }
}

#[test]
fn unevaluated_generations_keep_evolving() {
    let ga = GeneticAlgorithm::new(
        RouletteWheelSelection::new(),
        UniformCrossover::new(),
        RateMutation::new(1, 1, Increment).ok().unwrap(),
    );
    let mut rng = ChaCha8Rng::from_seed([6; 32]);
    let mut population: Vec<TestIndividual> =
        (0..7).map(|i| TestIndividual { fitness: i, chromosome: vec![0; 9] }).collect();
    for generation in 1..=5u32 {
        population = ga.evolve(&mut rng, &population).unwrap();
        assert_eq!(population.len(), 7);
        for individual in &population {
            assert_eq!(individual.chromosome, vec![generation; 9]);
        }
    }
}

#[test]
fn repeated_evolution_keeps_the_population_size() {
    let ga = GeneticAlgorithm::new(
        RouletteWheelSelection::new(),
        UniformCrossover::new(),
        RateMutation::new(1, 1, Increment).ok().unwrap(),
    );
    let first: Vec<TestIndividual> =
        (0..5).map(|i| TestIndividual { fitness: i + 1, chromosome: vec![0; 4] }).collect();
    let mut rng = ChaCha8Rng::from_seed([3; 32]);
    assert_eq!(ga.evolve_repeatedly(&mut rng, first.clone(), 0), Ok(first.clone()));
    for generations in 1..=6u32 {
        let last = ga.evolve_repeatedly(&mut rng, first.clone(), generations as usize).unwrap();
        assert_eq!(last.len(), 5);
        for individual in &last {
            assert_eq!(individual.chromosome, vec![generations; 4]);
        }
    }
    let nobody: Vec<TestIndividual> = Vec::new();
    assert_eq!(
        ga.evolve_repeatedly(&mut rng, nobody.clone(), 3),
        Err(neuroevolution::genetic::GeneticError::EmptyPopulation)
    );
    assert_eq!(ga.evolve_repeatedly(&mut rng, nobody, 0), Ok(Vec::new()));
}
