//! The evolutionary engine: selection, crossover, mutation and the
//! replacement of one generation by the next.

use crate::network::Gene;
use crate::random_source::{chance, flip};
use rand::seq::SliceRandom;
use rand_chacha::ChaCha8Rng;
use vstd::prelude::*;

verus! {

/// Why a generation could not be produced.
#[derive(Clone, Copy, Debug, PartialEq, Eq)]
pub enum GeneticError {
    /// The population holds no individual.
    EmptyPopulation,
    /// The fitness values of the population sum to more than `u32::MAX`.
    FitnessOverflow,
    /// Two chromosomes that must agree in length do not.
    LengthMismatch,
    /// A mutation rate with a zero denominator, or above one.
    InvalidRate,
}

/// A candidate solution: a chromosome and the fitness that an evaluator
/// outside this library gave it. The fitness is a whole, non-negative score;
/// selection weighs individuals by it.
pub trait Individual: Sized {
    /// The fitness, a non-negative score.
    spec fn fitness_spec(&self) -> u32;

    /// The genes.
    spec fn chromosome_spec(&self) -> Seq<Gene>;

    fn fitness(&self) -> (r: u32)
        ensures
            r == self.fitness_spec(),
    ;

    fn chromosome(&self) -> (r: &Vec<Gene>)
        ensures
            r@ == self.chromosome_spec(),
    ;

    /// A new individual with the given genes; its fitness is not yet
    /// known.
    fn create(chromosome: Vec<Gene>) -> (r: Self)
        ensures
            r.chromosome_spec() == chromosome@,
    ;
}

/// The fitness values of a population, in its order.
pub open spec fn fitness_values<I: Individual>(population: Seq<I>) -> Seq<u32> {
    Seq::new(population.len(), |i: int| population[i].fitness_spec())
}

/// The sum of a sequence of fitness values.
pub open spec fn total_fitness(values: Seq<u32>) -> nat
    decreases values.len(),
{
    if values.len() == 0 {
        0
    } else {
        total_fitness(values.drop_last()) + values.last() as nat
    }
}

/// All chromosomes of the population have one length.
pub open spec fn uniform_length<I: Individual>(population: Seq<I>) -> bool {
    forall|i: int|
        0 <= i < population.len() ==> (#[trigger] population[i]).chromosome_spec().len()
            == population[0].chromosome_spec().len()
}

/// `child` takes each gene from one of the two parents, at the same
/// position.
pub open spec fn is_crossover(child: Seq<Gene>, parent_a: Seq<Gene>, parent_b: Seq<Gene>) -> bool {
    &&& child.len() == parent_a.len()
    &&& child.len() == parent_b.len()
    &&& forall|i: int|
        0 <= i < child.len() ==> #[trigger] child[i] == parent_a[i] || child[i] == parent_b[i]
}

/// What the coins make of two parents: gene `i` comes from `parent_a`
/// where coin `i` came up, and from `parent_b` where it did not.
pub open spec fn crossed_by(coins: Seq<bool>, parent_a: Seq<Gene>, parent_b: Seq<Gene>) -> Seq<
    Gene,
> {
    Seq::new(
        parent_a.len(),
        |i: int|
            if coins[i] {
                parent_a[i]
            } else {
                parent_b[i]
            },
    )
}

/// `crossed` is a crossover of the chromosomes of members `a` and `b`.
pub open spec fn is_crossover_of_members<I: Individual>(
    crossed: Seq<Gene>,
    population: Seq<I>,
    a: int,
    b: int,
) -> bool {
    &&& 0 <= a < population.len()
    &&& 0 <= b < population.len()
    &&& is_crossover(crossed, population[a].chromosome_spec(), population[b].chromosome_spec())
}

/// `child` is what one step of evolution may make of `population`: what
/// the mutation method makes of a crossover of two members that the
/// selection method may choose. Where mutation is silent, the child is that
/// crossover.
pub open spec fn is_offspring<I: Individual, S: SelectionMethod, M: MutationMethod>(
    child: Seq<Gene>,
    population: Seq<I>,
    selection: S,
    mutation: M,
) -> bool {
    exists|a: int, b: int, crossed: Seq<Gene>|
        {
            &&& #[trigger] is_crossover_of_members(crossed, population, a, b)
            &&& selection.may_select(fitness_values(population), a)
            &&& selection.may_select(fitness_values(population), b)
            &&& mutation.mutates(crossed, child)
            &&& mutation.silent() ==> child == crossed
        }
}

/// A part of the fitness values never sums to more than the whole.
pub proof fn lemma_total_fitness_prefix(values: Seq<u32>, k: int)
    requires
        0 <= k <= values.len(),
    ensures
        total_fitness(values.take(k)) <= total_fitness(values),
    decreases values.len() - k,
{
    if k == values.len() {
        assert(values.take(k) =~= values);
    } else {
        lemma_total_fitness_prefix(values.drop_last(), k);
        assert(values.drop_last().take(k) =~= values.take(k));
    }
}

/// A way of choosing a parent.
pub trait SelectionMethod {
    /// The fitness values of the populations from which this method yields
    /// an individual. No method yields one from an empty population.
    spec fn accepts(&self, fitness: Seq<u32>) -> bool;

    /// Whether this method may choose the member at `index` of a population
    /// with the given fitness values.
    spec fn may_select(&self, fitness: Seq<u32>, index: int) -> bool;

    /// Chooses one member of the population, which stays in it.
    fn select<'a, I: Individual>(&self, rng: &mut ChaCha8Rng, population: &'a [I]) -> (r: Result<
        &'a I,
        GeneticError,
    >)
        ensures
            r is Ok <==> population@.len() > 0 && self.accepts(fitness_values(population@)),
            population@.len() == 0 <==> r == Err::<&I, GeneticError>(GeneticError::EmptyPopulation),
            r matches Ok(chosen) ==> exists|i: int|
                0 <= i < population@.len() && #[trigger] population@[i] == *chosen
                    && self.may_select(fitness_values(population@), i),
            r matches Err(e) ==> e == GeneticError::EmptyPopulation || e
                == GeneticError::FitnessOverflow,
    ;
}

/// A way of making one chromosome of two.
pub trait CrossoverMethod {
    /// Combines two parents of one length into a child of that length.
    fn crossover(&self, rng: &mut ChaCha8Rng, parent_a: &Vec<Gene>, parent_b: &Vec<Gene>) -> (r:
        Result<Vec<Gene>, GeneticError>)
        ensures
            parent_a@.len() != parent_b@.len() <==> r == Err::<Vec<Gene>, GeneticError>(
                GeneticError::LengthMismatch,
            ),
            parent_a@.len() == parent_b@.len() ==> r is Ok,
            r matches Ok(child) ==> is_crossover(child@, parent_a@, parent_b@),
    ;
}

/// A way of perturbing a chromosome in place.
pub trait MutationMethod {
    /// This method leaves every chromosome as it is.
    spec fn silent(&self) -> bool;

    /// Whether this method may make `after` of `before`.
    spec fn mutates(&self, before: Seq<Gene>, after: Seq<Gene>) -> bool;

    /// Perturbs some genes of `child` and leaves the others untouched.
    fn mutate(&self, rng: &mut ChaCha8Rng, child: &mut Vec<Gene>)
        ensures
            final(child)@.len() == old(child)@.len(),
            self.mutates(old(child)@, final(child)@),
            self.silent() ==> final(child)@ == old(child)@,
    ;
}

/// What mutation does to the one gene it has picked.
pub trait Perturbation {
    /// Whether `out` may take the place of `gene`.
    spec fn yields(&self, gene: Gene, out: Gene) -> bool;

    /// The gene that takes the place of `gene`.
    fn perturb(&self, rng: &mut ChaCha8Rng, gene: Gene) -> (out: Gene)
        ensures
            self.yields(gene, out),
    ;
}

/// `SliceRandom::choose_weighted` with each individual's fitness as its
/// weight. The call adds the weights up in a `u32`, so their sum must fit.
/// It yields an individual exactly when some weight is positive, and then a
/// member of the population whose own weight is positive: the draw lies
/// below the total, and the member found is the first whose running total
/// exceeds the draw.
#[verifier::external_body]
fn choose_by_fitness<'a, I: Individual>(rng: &mut ChaCha8Rng, population: &'a [I]) -> (r: Option<
    &'a I,
>)
    requires
        population@.len() > 0,
        total_fitness(fitness_values(population@)) <= u32::MAX,
    ensures
        r is Some <==> total_fitness(fitness_values(population@)) > 0,
        r matches Some(chosen) ==> exists|i: int|
            0 <= i < population@.len() && #[trigger] population@[i] == *chosen
                && population@[i].fitness_spec() > 0,
{
    population.choose_weighted(rng, |individual| individual.fitness()).ok()
}

/// `SliceRandom::choose`: a member of the population, each as likely as
/// any other, or nothing where there is none.
#[verifier::external_body]
fn choose_uniformly<'a, I: Individual>(rng: &mut ChaCha8Rng, population: &'a [I]) -> (r: Option<
    &'a I,
>)
    ensures
        r is Some <==> population@.len() > 0,
        r matches Some(chosen) ==> population@.contains(*chosen),
{
    population.choose(rng)
}

/// The fitness values of a population, added up; nothing where the sum
/// passes `u32::MAX`.
pub fn sum_fitness<I: Individual>(population: &[I]) -> (r: Option<u32>)
    ensures
        r is Some <==> total_fitness(fitness_values(population@)) <= u32::MAX,
        r matches Some(total) ==> total == total_fitness(fitness_values(population@)),
{
    let mut total: u32 = 0;
    let mut k: usize = 0;
    let ghost values = fitness_values(population@);
    assert(values.take(0) =~= Seq::<u32>::empty());
    while k < population.len()
        invariant
            k <= population@.len(),
            values == fitness_values(population@),
            total == total_fitness(values.take(k as int)),
        decreases population@.len() - k,
    {
        let fitness: u32 = population[k].fitness();
        proof {
            let next = values.take(k + 1);
            assert(next.drop_last() =~= values.take(k as int));
            assert(total_fitness(next) == total + fitness);
            lemma_total_fitness_prefix(values, k + 1);
        }
        if fitness > u32::MAX - total {
            return None;
        }
        total = total + fitness;
        k += 1;
    }
    assert(values.take(k as int) =~= values);
    Some(total)
}

/// Fitness-proportional selection: each individual is chosen with a
/// probability that is its share of the total fitness. Where every fitness
/// is zero, each individual is as likely as any other.
#[derive(Clone, Copy, Debug)]
pub struct RouletteWheelSelection;

impl RouletteWheelSelection {
    pub fn new() -> (r: Self) {
        RouletteWheelSelection
    }
}

impl SelectionMethod for RouletteWheelSelection {
    open spec fn accepts(&self, fitness: Seq<u32>) -> bool {
        total_fitness(fitness) <= u32::MAX
    }

    /// Any member where every fitness is zero; otherwise those of positive
    /// fitness.
    open spec fn may_select(&self, fitness: Seq<u32>, index: int) -> bool {
        total_fitness(fitness) > 0 ==> 0 <= index < fitness.len() && fitness[index] > 0
    }

    /// Fails on an empty population, and on one whose fitness values sum
    /// to more than `u32::MAX`. Otherwise the chosen one is a member, and has
    /// a positive fitness if any member has.
    fn select<'a, I: Individual>(&self, rng: &mut ChaCha8Rng, population: &'a [I]) -> (r: Result<
        &'a I,
        GeneticError,
    >)
        ensures
            population@.len() > 0 && total_fitness(fitness_values(population@)) > u32::MAX <==> r == Err::<
                &I,
                GeneticError,
            >(GeneticError::FitnessOverflow),
            r matches Ok(chosen) ==> total_fitness(fitness_values(population@)) > 0 ==> chosen.fitness_spec() > 0,
    {
        if population.len() == 0 {
            return Err(GeneticError::EmptyPopulation);
        }
        if sum_fitness(population).is_none() {
            return Err(GeneticError::FitnessOverflow);
        }
        match choose_by_fitness(rng, population) {
            Some(chosen) => Ok(chosen),
            None => match choose_uniformly(rng, population) {
                Some(chosen) => {
                    proof {
                        let i = population@.index_of(*chosen);
                        assert(population@[i] == *chosen);
                    }
                    Ok(chosen)
                },
                None => Err(GeneticError::EmptyPopulation),
            },
        }
    }
}

/// Uniform crossover: each gene comes from one parent or the other, by a
/// fair coin of its own.
#[derive(Clone, Copy, Debug)]
pub struct UniformCrossover;

impl UniformCrossover {
    pub fn new() -> (r: Self) {
        UniformCrossover
    }
}

/// Crosses two parents by coins already drawn: gene `i` of the child is
/// that of `parent_a` where coin `i` came up, and that of `parent_b` where
/// it did not. The three must be of one length.
pub fn cross(coins: &Vec<bool>, parent_a: &Vec<Gene>, parent_b: &Vec<Gene>) -> (r: Result<
    Vec<Gene>,
    GeneticError,
>)
    ensures
        r is Ok <==> parent_a@.len() == parent_b@.len() && coins@.len() == parent_a@.len(),
        r matches Err(e) ==> e == GeneticError::LengthMismatch,
        r matches Ok(child) ==> child@ == crossed_by(coins@, parent_a@, parent_b@),
{
    if parent_a.len() != parent_b.len() || coins.len() != parent_a.len() {
        return Err(GeneticError::LengthMismatch);
    }
    let mut child: Vec<Gene> = Vec::new();
    let mut i: usize = 0;
    while i < parent_a.len()
        invariant
            i <= parent_a@.len(),
            parent_a@.len() == parent_b@.len(),
            coins@.len() == parent_a@.len(),
            child@.len() == i,
            forall|k: int|
                0 <= k < i ==> #[trigger] child@[k] == crossed_by(coins@, parent_a@, parent_b@)[k],
        decreases parent_a@.len() - i,
    {
        let gene: Gene = if coins[i] {
            parent_a[i]
        } else {
            parent_b[i]
        };
        child.push(gene);
        i += 1;
    }
    assert(child@ =~= crossed_by(coins@, parent_a@, parent_b@));
    Ok(child)
}

impl CrossoverMethod for UniformCrossover {
    /// Draws one coin for each gene, in order, and crosses the parents by
    /// them.
    fn crossover(&self, rng: &mut ChaCha8Rng, parent_a: &Vec<Gene>, parent_b: &Vec<Gene>) -> (r:
        Result<Vec<Gene>, GeneticError>)
        ensures
            r matches Ok(child) ==> exists|coins: Seq<bool>|
                coins.len() == parent_a@.len() && child@ == #[trigger] crossed_by(
                    coins,
                    parent_a@,
                    parent_b@,
                ),
    {
        if parent_a.len() != parent_b.len() {
            return Err(GeneticError::LengthMismatch);
        }
        let mut coins: Vec<bool> = Vec::new();
        let mut i: usize = 0;
        while i < parent_a.len()
            invariant
                i <= parent_a@.len(),
                coins@.len() == i,
            decreases parent_a@.len() - i,
        {
            coins.push(flip(rng));
            i += 1;
        }
        cross(&coins, parent_a, parent_b)
    }
}

/// Mutation at a rate: each gene is, by a coin of its own that comes up
/// with probability `numerator / denominator`, replaced by what the
/// perturbation makes of it.
pub struct RateMutation<P: Perturbation> {
    numerator: u32,
    denominator: u32,
    perturbation: P,
}

impl<P: Perturbation> RateMutation<P> {
    #[verifier::type_invariant]
    spec fn valid(self) -> bool {
        0 < self.denominator && self.numerator <= self.denominator
    }

    /// The rate's numerator.
    pub closed spec fn rate_numerator(self) -> u32 {
        self.numerator
    }

    /// The rate's denominator.
    pub closed spec fn rate_denominator(self) -> u32 {
        self.denominator
    }

    /// What is done to a gene that the coin has picked.
    pub closed spec fn perturbation(self) -> P {
        self.perturbation
    }

    /// A mutation at the rate `numerator / denominator`, which must lie
    /// between zero and one.
    pub fn new(numerator: u32, denominator: u32, perturbation: P) -> (r: Result<Self, GeneticError>)
        ensures
            (denominator == 0 || numerator > denominator) <==> r is Err,
            r matches Err(e) ==> e == GeneticError::InvalidRate,
            r matches Ok(m) ==> m.rate_numerator() == numerator && m.rate_denominator()
                == denominator && m.perturbation() == perturbation,
    {
        if denominator == 0 || numerator > denominator {
            return Err(GeneticError::InvalidRate);
        }
        Ok(RateMutation { numerator, denominator, perturbation })
    }
}

impl<P: Perturbation> MutationMethod for RateMutation<P> {
    /// A rate of zero never fires.
    open spec fn silent(&self) -> bool {
        self.rate_numerator() == 0
    }

    /// Every gene is what it was or what the perturbation yields from it:
    /// the latter for every gene at a rate of one, the former at a rate of
    /// zero.
    open spec fn mutates(&self, before: Seq<Gene>, after: Seq<Gene>) -> bool {
        &&& after.len() == before.len()
        &&& forall|k: int|
            0 <= k < before.len() ==> #[trigger] after[k] == before[k]
                || self.perturbation().yields(before[k], after[k])
        &&& self.rate_numerator() == self.rate_denominator() ==> forall|k: int|
            0 <= k < before.len() ==> self.perturbation().yields(before[k], #[trigger] after[k])
        &&& self.rate_numerator() == 0 ==> after == before
    }

    /// Every gene is afterwards either what it was or what the
    /// perturbation yields from it. At a rate of one the coin picks every
    /// gene, so each is what the perturbation yields from it; at a rate of
    /// zero it picks none.
    fn mutate(&self, rng: &mut ChaCha8Rng, child: &mut Vec<Gene>)
        ensures
            forall|k: int|
                0 <= k < old(child)@.len() ==> #[trigger] final(child)@[k] == old(child)@[k]
                    || self.perturbation().yields(old(child)@[k], final(child)@[k]),
            self.rate_numerator() == self.rate_denominator() ==> forall|k: int|
                0 <= k < old(child)@.len() ==> self.perturbation().yields(
                    old(child)@[k],
                    #[trigger] final(child)@[k],
                ),
    {
        proof {
            use_type_invariant(self);
        }
        let mut i: usize = 0;
        while i < child.len()
            invariant
                i <= child@.len(),
                child@.len() == old(child)@.len(),
                0 < self.denominator && self.numerator <= self.denominator,
                self.numerator == 0 ==> child@ == old(child)@,
                forall|k: int| i <= k < child@.len() ==> child@[k] == old(child)@[k],
                forall|k: int|
                    0 <= k < i ==> #[trigger] child@[k] == old(child)@[k]
                        || self.perturbation.yields(old(child)@[k], child@[k]),
                self.numerator == self.denominator ==> forall|k: int|
                    0 <= k < i ==> self.perturbation.yields(old(child)@[k], #[trigger] child@[k]),
            decreases child@.len() - i,
        {
            if chance(rng, self.numerator, self.denominator) {
                let gene: Gene = self.perturbation.perturb(rng, child[i]);
                child.set(i, gene);
            }
            i += 1;
        }
    }
}

/// Whether all chromosomes of the population have one length.
pub fn has_uniform_length<I: Individual>(population: &[I]) -> (r: bool)
    ensures
        r == uniform_length(population@),
{
    let mut k: usize = 1;
    if population.len() == 0 {
        return true;
    }
    let length: usize = population[0].chromosome().len();
    while k < population.len()
        invariant
            1 <= k <= population@.len(),
            length == population@[0].chromosome_spec().len(),
            forall|i: int|
                0 <= i < k ==> (#[trigger] population@[i]).chromosome_spec().len() == length,
        decreases population@.len() - k,
    {
        if population[k].chromosome().len() != length {
            return false;
        }
        k += 1;
    }
    true
}

/// The evolution orchestrator: holds one strategy of each kind and never
/// looks inside them.
pub struct GeneticAlgorithm<S, C, M> {
    pub selection_method: S,
    pub crossover_method: C,
    pub mutation_method: M,
}

impl<S: SelectionMethod, C: CrossoverMethod, M: MutationMethod> GeneticAlgorithm<S, C, M> {
    pub fn new(selection_method: S, crossover_method: C, mutation_method: M) -> (r: Self)
        ensures
            r.selection_method == selection_method,
            r.crossover_method == crossover_method,
            r.mutation_method == mutation_method,
    {
        GeneticAlgorithm { selection_method, crossover_method, mutation_method }
    }

    /// Replaces one generation by the next.
    ///
    /// For each place of the population two parents are selected, with
    /// replacement; their chromosomes are crossed, the child is mutated and
    /// made into a new individual. An empty population is refused, and so is
    /// one whose chromosomes differ in length. Otherwise a generation comes
    /// back exactly when the selection method accepts the population. It
    /// has the size of the old one, and every chromosome in it has the
    /// parents' length; where mutation is silent, each is an exact crossover
    /// of two members of the old generation.
    pub fn evolve<I: Individual>(&self, rng: &mut ChaCha8Rng, population: &[I]) -> (r: Result<
        Vec<I>,
        GeneticError,
    >)
        ensures
            population@.len() == 0 <==> r == Err::<Vec<I>, GeneticError>(
                GeneticError::EmptyPopulation,
            ),
            population@.len() > 0 && !uniform_length(population@) <==> r == Err::<
                Vec<I>,
                GeneticError,
            >(GeneticError::LengthMismatch),
            r matches Err(e) ==> e == GeneticError::EmptyPopulation || e
                == GeneticError::LengthMismatch || e == GeneticError::FitnessOverflow,
            r is Ok <==> population@.len() > 0 && uniform_length(population@)
                && self.selection_method.accepts(fitness_values(population@)),
            r matches Ok(next) ==> next@.len() == population@.len() && forall|k: int|
                0 <= k < next@.len() ==> is_offspring(
                    (#[trigger] next@[k]).chromosome_spec(),
                    population@,
                    self.selection_method,
                    self.mutation_method,
                ) && next@[k].chromosome_spec().len() == population@[0].chromosome_spec().len(),
    {
        if population.len() == 0 {
            return Err(GeneticError::EmptyPopulation);
        }
        if !has_uniform_length(population) {
            return Err(GeneticError::LengthMismatch);
        }
        let mut next: Vec<I> = Vec::new();
        let mut k: usize = 0;
        while k < population.len()
            invariant
                k <= population@.len(),
                population@.len() > 0,
                uniform_length(population@),
                next@.len() == k,
                k > 0 ==> self.selection_method.accepts(fitness_values(population@)),
                forall|j: int|
                    0 <= j < k ==> is_offspring(
                        (#[trigger] next@[j]).chromosome_spec(),
                        population@,
                        self.selection_method,
                        self.mutation_method,
                    ) && next@[j].chromosome_spec().len() == population@[0].chromosome_spec().len(),
            decreases population@.len() - k,
        {
            let parent_a = match self.selection_method.select(rng, population) {
                Ok(chosen) => chosen,
                Err(e) => {
                    return Err(e);
                },
            };
            let parent_b = match self.selection_method.select(rng, population) {
                Ok(chosen) => chosen,
                Err(e) => {
                    return Err(e);
                },
            };
            let ghost values = fitness_values(population@);
            let ghost a = choose|i: int|
                0 <= i < population@.len() && #[trigger] population@[i] == *parent_a
                    && self.selection_method.may_select(values, i);
            let ghost b = choose|i: int|
                0 <= i < population@.len() && #[trigger] population@[i] == *parent_b
                    && self.selection_method.may_select(values, i);
            let mut child = match self.crossover_method.crossover(
                rng,
                parent_a.chromosome(),
                parent_b.chromosome(),
            ) {
                Ok(child) => child,
                Err(e) => {
                    return Err(e);
                },
            };
            let ghost crossed = child@;
            self.mutation_method.mutate(rng, &mut child);
            let individual = I::create(child);
            proof {
                assert(population@[a] == *parent_a && population@[b] == *parent_b);
                assert(is_crossover_of_members(crossed, population@, a, b));
                assert(is_offspring(
                    individual.chromosome_spec(),
                    population@,
                    self.selection_method,
                    self.mutation_method,
                ));
            }
            next.push(individual);
            k += 1;
        }
        Ok(next)
    }

    /// Replaces the generation `generations` times over, each time by what
    /// `evolve` makes of the one before, with the fitness that `create`
    /// left. After no generation the population comes back as it is. The
    /// first generation is refused as `evolve` refuses it; one generation
    /// succeeds exactly when `evolve` does. Later generations depend on the
    /// fitness that `create` left, which may be refused as a fitness total.
    /// Whatever the number of generations, the population that comes back
    /// has the size and the chromosome length of the first.
    pub fn evolve_repeatedly<I: Individual>(
        &self,
        rng: &mut ChaCha8Rng,
        population: Vec<I>,
        generations: usize,
    ) -> (r: Result<Vec<I>, GeneticError>)
        ensures
            generations == 0 ==> r == Ok::<Vec<I>, GeneticError>(population),
            generations > 0 && population@.len() == 0 <==> r == Err::<Vec<I>, GeneticError>(
                GeneticError::EmptyPopulation,
            ),
            generations > 0 && population@.len() > 0 && !uniform_length(population@) <==> r
                == Err::<Vec<I>, GeneticError>(GeneticError::LengthMismatch),
            generations > 0 && r is Ok ==> self.selection_method.accepts(
                fitness_values(population@),
            ),
            generations > 0 && population@.len() > 0 && uniform_length(population@)
                && !self.selection_method.accepts(fitness_values(population@)) ==> r == Err::<
                Vec<I>,
                GeneticError,
            >(GeneticError::FitnessOverflow),
            generations == 1 ==> (r is Ok <==> population@.len() > 0 && uniform_length(
                population@,
            ) && self.selection_method.accepts(fitness_values(population@))),
            r matches Ok(last) ==> last@.len() == population@.len(),
            r matches Ok(last) ==> generations > 0 ==> uniform_length(last@) && forall|k: int|
                0 <= k < last@.len() ==> (#[trigger] last@[k]).chromosome_spec().len()
                    == population@[0].chromosome_spec().len(),
            r matches Err(e) ==> e == GeneticError::EmptyPopulation || e
                == GeneticError::LengthMismatch || e == GeneticError::FitnessOverflow,
    {
        let mut current: Vec<I> = population;
        let mut done: usize = 0;
        while done < generations
            invariant
                done <= generations,
                current@.len() == population@.len(),
                done == 0 ==> current == population,
                done > 0 ==> population@.len() > 0 && uniform_length(population@)
                    && self.selection_method.accepts(fitness_values(population@)),
                done > 0 ==> uniform_length(current@) && forall|k: int|
                    0 <= k < current@.len() ==> (#[trigger] current@[k]).chromosome_spec().len()
                        == population@[0].chromosome_spec().len(),
            decreases generations - done,
        {
            match self.evolve(rng, current.as_slice()) {
                Ok(next) => {
                    proof {
                        assert forall|k: int| 0 <= k < next@.len() implies (
                        #[trigger] next@[k]).chromosome_spec().len()
                            == population@[0].chromosome_spec().len() by {
                            assert(next@[k].chromosome_spec().len()
                                == current@[0].chromosome_spec().len());
                        }
                    }
                    current = next;
                },
                Err(e) => {
                    return Err(e);
                },
            }
            done += 1;
        }
        Ok(current)
    }
}

/// Where some fitness is positive and every member of positive fitness has
/// the chromosome `genome`, roulette selection and silent mutation breed
/// nothing but `genome`: members of zero fitness leave no gene.
pub proof fn lemma_zero_fitness_leaves_no_gene<I: Individual, M: MutationMethod>(
    child: Seq<Gene>,
    population: Seq<I>,
    selection: RouletteWheelSelection,
    mutation: M,
    genome: Seq<Gene>,
)
    requires
        is_offspring(child, population, selection, mutation),
        mutation.silent(),
        total_fitness(fitness_values(population)) > 0,
        forall|i: int|
            0 <= i < population.len() && (#[trigger] population[i]).fitness_spec() > 0
                ==> population[i].chromosome_spec() == genome,
    ensures
        child == genome,
{
    let (a, b, crossed) = choose|a: int, b: int, crossed: Seq<Gene>|
        {
            &&& #[trigger] is_crossover_of_members(crossed, population, a, b)
            &&& selection.may_select(fitness_values(population), a)
            &&& selection.may_select(fitness_values(population), b)
            &&& mutation.mutates(crossed, child)
            &&& mutation.silent() ==> child == crossed
        };
    assert(population[a].fitness_spec() > 0);
    assert(population[b].fitness_spec() > 0);
    assert(crossed =~= genome);
}

/// Where every member has the chromosome `genome` and the perturbation
/// never yields the gene it was given, mutation at a rate of one leaves no
/// gene of a child as it was in `genome`.
pub proof fn lemma_rate_one_changes_every_gene<I: Individual, S: SelectionMethod, P: Perturbation>(
    child: Seq<Gene>,
    population: Seq<I>,
    selection: S,
    mutation: RateMutation<P>,
    genome: Seq<Gene>,
)
    requires
        is_offspring(child, population, selection, mutation),
        mutation.rate_numerator() == mutation.rate_denominator(),
        forall|i: int|
            0 <= i < population.len() ==> (#[trigger] population[i]).chromosome_spec() == genome,
        forall|gene: Gene, out: Gene| #[trigger]
            mutation.perturbation().yields(gene, out) ==> out != gene,
    ensures
        child.len() == genome.len(),
        forall|j: int| 0 <= j < genome.len() ==> #[trigger] child[j] != genome[j],
{
    let (a, b, crossed) = choose|a: int, b: int, crossed: Seq<Gene>|
        {
            &&& #[trigger] is_crossover_of_members(crossed, population, a, b)
            &&& selection.may_select(fitness_values(population), a)
            &&& selection.may_select(fitness_values(population), b)
            &&& mutation.mutates(crossed, child)
            &&& mutation.silent() ==> child == crossed
        };
    assert(population[a].chromosome_spec() == genome);
    assert(population[b].chromosome_spec() == genome);
    assert(crossed =~= genome);
    assert forall|j: int| 0 <= j < genome.len() implies #[trigger] child[j] != genome[j] by {
        assert(mutation.perturbation().yields(crossed[j], child[j]));
    }
}

/// A plain individual: a fitness and a chromosome.
#[derive(Clone, Debug, PartialEq, Eq)]
pub struct TestIndividual {
    pub fitness: u32,
    pub chromosome: Vec<Gene>,
}

impl TestIndividual {
    /// An individual of the given fitness, with no genes.
    pub fn new(fitness: u32) -> (r: Self)
        ensures
            r.fitness == fitness,
            r.chromosome@.len() == 0,
    {
        TestIndividual { fitness, chromosome: Vec::new() }
    }
}

impl Individual for TestIndividual {
    open spec fn fitness_spec(&self) -> u32 {
        self.fitness
    }

    open spec fn chromosome_spec(&self) -> Seq<Gene> {
        self.chromosome@
    }

    fn fitness(&self) -> (r: u32) {
        self.fitness
    }

    fn chromosome(&self) -> (r: &Vec<Gene>) {
        &self.chromosome
    }

    /// The new individual's fitness is zero until it is evaluated.
    fn create(chromosome: Vec<Gene>) -> (r: Self)
        ensures
            r.fitness == 0,
    {
        TestIndividual { fitness: 0, chromosome }
    }
}

} // verus!
