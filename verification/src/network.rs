//! The network genome: neurons, layers, networks and the codec between a
//! network and its flat gene sequence.
//!
//! The genes of a network are laid out layer by layer, neuron by neuron,
//! each neuron as its bias followed by its weights.

use rand_chacha::ChaCha8Rng;
use vstd::prelude::*;

verus! {

/// One gene: the IEEE-754 bit pattern of a 32-bit real.
pub type Gene = u32;

/// The width of one layer of a topology.
#[derive(Clone, Copy, Debug, PartialEq, Eq)]
pub struct LayerTopology {
    pub neurons: usize,
}

/// Why a network could not be built.
#[derive(Clone, Copy, Debug, PartialEq, Eq)]
pub enum NetworkError {
    /// The topology has fewer than two entries.
    TopologyTooShort,
    /// The gene sequence is not exactly as long as the topology implies.
    LengthMismatch,
    /// A signal is not as wide as the neurons that take it.
    InputMismatch,
}

/// Where the genes of a new network come from: one draw from the random
/// source for each gene.
pub trait GeneSource {
    /// Whether a draw may give `gene`.
    spec fn may_draw(&self, gene: Gene) -> bool;

    /// Draws one gene.
    fn draw(&self, rng: &mut ChaCha8Rng) -> (gene: Gene)
        ensures
            self.may_draw(gene),
    ;
}

/// The arithmetic of the reals that genes stand for. The library decides
/// which genes meet in which operation and in what order; what an
/// operation yields is the implementor's.
pub trait RealArithmetic {
    /// The gene that stands for zero.
    spec fn zero_spec(&self) -> Gene;

    /// The gene that stands for the sum of two reals.
    spec fn sum_spec(&self, a: Gene, b: Gene) -> Gene;

    /// The gene that stands for the product of two reals.
    spec fn product_spec(&self, a: Gene, b: Gene) -> Gene;

    /// The gene that stands for the larger of two reals.
    spec fn larger_spec(&self, a: Gene, b: Gene) -> Gene;

    /// The gene that stands for zero.
    fn zero(&self) -> (r: Gene)
        ensures
            r == self.zero_spec(),
    ;

    /// The sum of two reals.
    fn sum(&self, a: Gene, b: Gene) -> (r: Gene)
        ensures
            r == self.sum_spec(a, b),
    ;

    /// The product of two reals.
    fn product(&self, a: Gene, b: Gene) -> (r: Gene)
        ensures
            r == self.product_spec(a, b),
    ;

    /// The larger of two reals.
    fn larger(&self, a: Gene, b: Gene) -> (r: Gene)
        ensures
            r == self.larger_spec(a, b),
    ;
}

/// One bias and one weight per input.
#[derive(Clone, Debug, PartialEq, Eq)]
pub struct Neuron {
    pub bias: Gene,
    pub weights: Vec<Gene>,
}

/// Neurons that share one input width.
#[derive(Clone, Debug, PartialEq, Eq)]
pub struct Layer {
    pub neurons: Vec<Neuron>,
}

/// Layers in the order in which a signal passes them.
#[derive(Clone, Debug, PartialEq, Eq)]
pub struct Network {
    pub layers: Vec<Layer>,
}

/// The mathematical value of a neuron.
pub ghost struct NeuronModel {
    pub bias: Gene,
    pub weights: Seq<Gene>,
}

impl View for Neuron {
    type V = NeuronModel;

    open spec fn view(&self) -> NeuronModel {
        NeuronModel { bias: self.bias, weights: self.weights@ }
    }
}

impl View for Layer {
    type V = Seq<NeuronModel>;

    open spec fn view(&self) -> Seq<NeuronModel> {
        self.neurons@.map_values(|n: Neuron| n@)
    }
}

impl View for Network {
    type V = Seq<Seq<NeuronModel>>;

    open spec fn view(&self) -> Seq<Seq<NeuronModel>> {
        self.layers@.map_values(|l: Layer| l@)
    }
}

/// The widths that a topology lists.
pub open spec fn widths(layers: Seq<LayerTopology>) -> Seq<nat> {
    layers.map_values(|l: LayerTopology| l.neurons as nat)
}

/// The genes of a neuron: its bias, then its weights.
pub open spec fn neuron_genes(neuron: NeuronModel) -> Seq<Gene> {
    seq![neuron.bias] + neuron.weights
}

/// The genes of a layer: those of its neurons, in order.
pub open spec fn layer_genes(layer: Seq<NeuronModel>) -> Seq<Gene>
    decreases layer.len(),
{
    if layer.len() == 0 {
        Seq::empty()
    } else {
        layer_genes(layer.drop_last()) + neuron_genes(layer.last())
    }
}

/// The genes of a network: those of its layers, in order.
pub open spec fn network_genes(network: Seq<Seq<NeuronModel>>) -> Seq<Gene>
    decreases network.len(),
{
    if network.len() == 0 {
        Seq::empty()
    } else {
        network_genes(network.drop_last()) + layer_genes(network.last())
    }
}

/// A layer of `outputs` neurons with `inputs` weights each.
pub open spec fn layer_has_shape(layer: Seq<NeuronModel>, inputs: nat, outputs: nat) -> bool {
    &&& layer.len() == outputs
    &&& forall|j: int| 0 <= j < layer.len() ==> (#[trigger] layer[j]).weights.len() == inputs
}

/// A network whose layer `i` takes `widths[i]` inputs and gives
/// `widths[i + 1]` outputs.
pub open spec fn network_has_topology(network: Seq<Seq<NeuronModel>>, widths: Seq<nat>) -> bool {
    &&& widths.len() == network.len() + 1
    &&& forall|i: int|
        0 <= i < network.len() ==> layer_has_shape(#[trigger] network[i], widths[i], widths[i + 1])
}

/// How many genes a network of the given widths holds.
pub open spec fn gene_count(widths: Seq<nat>) -> nat
    decreases widths.len(),
{
    if widths.len() < 2 {
        0
    } else {
        gene_count(widths.drop_last()) + widths[widths.len() - 1] * (widths[widths.len() - 2] + 1)
    }
}

/// A shorter topology never holds more genes.
pub proof fn lemma_gene_count_prefix(widths: Seq<nat>, k: int)
    requires
        0 <= k <= widths.len(),
    ensures
        gene_count(widths.take(k)) <= gene_count(widths),
    decreases widths.len() - k,
{
    if k == widths.len() {
        assert(widths.take(k) =~= widths);
    } else {
        lemma_gene_count_prefix(widths.drop_last(), k);
        assert(widths.drop_last().take(k) =~= widths.take(k));
    }
}

/// A layer of a given shape holds `outputs * (inputs + 1)` genes.
pub proof fn lemma_layer_genes_len(layer: Seq<NeuronModel>, inputs: nat, outputs: nat)
    requires
        layer_has_shape(layer, inputs, outputs),
    ensures
        layer_genes(layer).len() == outputs * (inputs + 1),
    decreases layer.len(),
{
    if layer.len() > 0 {
        lemma_layer_genes_len(layer.drop_last(), inputs, (outputs - 1) as nat);
        assert(outputs * (inputs + 1) == (outputs - 1) * (inputs + 1) + (inputs + 1))
            by (nonlinear_arith);
    } else {
        assert(outputs * (inputs + 1) == 0) by (nonlinear_arith)
            requires
                outputs == 0,
        ;
    }
}

/// A network of a given topology holds as many genes as the topology
/// implies.
pub proof fn lemma_network_genes_len(network: Seq<Seq<NeuronModel>>, widths: Seq<nat>)
    requires
        network_has_topology(network, widths),
    ensures
        network_genes(network).len() == gene_count(widths),
    decreases network.len(),
{
    if network.len() > 0 {
        let n = network.len() as int;
        assert(network_has_topology(network.drop_last(), widths.drop_last())) by {
            assert forall|i: int| 0 <= i < n - 1 implies layer_has_shape(
                #[trigger] network.drop_last()[i],
                widths.drop_last()[i],
                widths.drop_last()[i + 1],
            ) by {
                assert(layer_has_shape(network[i], widths[i], widths[i + 1]));
            }
        }
        lemma_network_genes_len(network.drop_last(), widths.drop_last());
        assert(layer_has_shape(network[n - 1], widths[n - 1], widths[n]));
        lemma_layer_genes_len(network.last(), widths[n - 1], widths[n]);
    }
}

/// Two sequences that end in parts of one length are equal only if the
/// parts are.
proof fn lemma_split_concat(x: Seq<Gene>, y: Seq<Gene>, u: Seq<Gene>, v: Seq<Gene>)
    requires
        x + y == u + v,
        y.len() == v.len(),
    ensures
        x == u,
        y == v,
{
    assert((x + y).len() == (u + v).len());
    assert(x =~= (x + y).subrange(0, x.len() as int));
    assert(u =~= (u + v).subrange(0, u.len() as int));
    assert(y =~= (x + y).subrange(x.len() as int, (x + y).len() as int));
    assert(v =~= (u + v).subrange(u.len() as int, (u + v).len() as int));
}

/// Two layers of one shape with the same genes are the same layer.
pub proof fn lemma_layer_genes_injective(
    a: Seq<NeuronModel>,
    b: Seq<NeuronModel>,
    inputs: nat,
    outputs: nat,
)
    requires
        layer_has_shape(a, inputs, outputs),
        layer_has_shape(b, inputs, outputs),
        layer_genes(a) == layer_genes(b),
    ensures
        a == b,
    decreases outputs,
{
    if outputs == 0 {
        assert(a =~= b);
    } else {
        let na = a.last();
        let nb = b.last();
        assert(na == a[a.len() - 1] && nb == b[b.len() - 1]);
        lemma_split_concat(
            layer_genes(a.drop_last()),
            neuron_genes(na),
            layer_genes(b.drop_last()),
            neuron_genes(nb),
        );
        lemma_layer_genes_injective(a.drop_last(), b.drop_last(), inputs, (outputs - 1) as nat);
        assert(na.bias == neuron_genes(na)[0]);
        assert(nb.bias == neuron_genes(nb)[0]);
        assert(na.weights =~= neuron_genes(na).subrange(1, (inputs + 1) as int));
        assert(nb.weights =~= neuron_genes(nb).subrange(1, (inputs + 1) as int));
        assert(a =~= a.drop_last().push(na));
        assert(b =~= b.drop_last().push(nb));
    }
}

/// Decoding is the inverse of encoding: two networks of one topology with
/// the same genes are the same network. So the network read back from the
/// genes of a network is that network.
pub proof fn lemma_network_genes_injective(
    a: Seq<Seq<NeuronModel>>,
    b: Seq<Seq<NeuronModel>>,
    widths: Seq<nat>,
)
    requires
        network_has_topology(a, widths),
        network_has_topology(b, widths),
        network_genes(a) == network_genes(b),
    ensures
        a == b,
    decreases widths.len(),
{
    if a.len() == 0 {
        assert(a =~= b);
    } else {
        let n = a.len() as int;
        let short = widths.drop_last();
        assert(layer_has_shape(a[n - 1], widths[n - 1], widths[n]));
        assert(layer_has_shape(b[n - 1], widths[n - 1], widths[n]));
        lemma_layer_genes_len(a.last(), widths[n - 1], widths[n]);
        lemma_layer_genes_len(b.last(), widths[n - 1], widths[n]);
        lemma_split_concat(
            network_genes(a.drop_last()),
            layer_genes(a.last()),
            network_genes(b.drop_last()),
            layer_genes(b.last()),
        );
        lemma_layer_genes_injective(a.last(), b.last(), widths[n - 1], widths[n]);
        assert forall|i: int| 0 <= i < n - 1 implies layer_has_shape(
            #[trigger] a.drop_last()[i],
            short[i],
            short[i + 1],
        ) && layer_has_shape(#[trigger] b.drop_last()[i], short[i], short[i + 1]) by {
            assert(layer_has_shape(a[i], widths[i], widths[i + 1]));
            assert(layer_has_shape(b[i], widths[i], widths[i + 1]));
        }
        lemma_network_genes_injective(a.drop_last(), b.drop_last(), short);
        assert(a =~= a.drop_last().push(a.last()));
        assert(b =~= b.drop_last().push(b.last()));
    }
}

/// Every neuron of the layer takes a signal of the given width.
pub open spec fn layer_takes(layer: Seq<NeuronModel>, width: nat) -> bool {
    forall|j: int| 0 <= j < layer.len() ==> (#[trigger] layer[j]).weights.len() == width
}

/// A signal of the given width passes through the whole network: the first
/// layer takes it, and each further layer takes what the one before gives.
pub open spec fn network_takes(network: Seq<Seq<NeuronModel>>, width: nat) -> bool
    decreases network.len(),
{
    network.len() == 0 || (layer_takes(network[0], width) && network_takes(
        network.drop_first(),
        network[0].len(),
    ))
}

/// The products of each input with its weight, added up in order from
/// zero.
pub open spec fn weighted_sum<A: RealArithmetic>(
    arithmetic: A,
    inputs: Seq<Gene>,
    weights: Seq<Gene>,
) -> Gene
    decreases inputs.len(),
{
    if inputs.len() == 0 {
        arithmetic.zero_spec()
    } else {
        arithmetic.sum_spec(
            weighted_sum(arithmetic, inputs.drop_last(), weights.drop_last()),
            arithmetic.product_spec(inputs.last(), weights.last()),
        )
    }
}

/// A neuron's answer to a signal: the larger of zero and the bias plus the
/// weighted sum of the inputs.
pub open spec fn neuron_answer<A: RealArithmetic>(
    arithmetic: A,
    neuron: NeuronModel,
    inputs: Seq<Gene>,
) -> Gene {
    arithmetic.larger_spec(
        arithmetic.sum_spec(neuron.bias, weighted_sum(arithmetic, inputs, neuron.weights)),
        arithmetic.zero_spec(),
    )
}

/// A layer's answer to a signal: the answer of each of its neurons to that
/// signal, in order.
pub open spec fn layer_answer<A: RealArithmetic>(
    arithmetic: A,
    layer: Seq<NeuronModel>,
    inputs: Seq<Gene>,
) -> Seq<Gene> {
    Seq::new(layer.len(), |j: int| neuron_answer(arithmetic, layer[j], inputs))
}

/// A network's answer to a signal: the answer of the last layer to that of
/// the one before, and so on down to the first layer's answer to the signal.
pub open spec fn network_answer<A: RealArithmetic>(
    arithmetic: A,
    network: Seq<Seq<NeuronModel>>,
    inputs: Seq<Gene>,
) -> Seq<Gene>
    decreases network.len(),
{
    if network.len() == 0 {
        inputs
    } else {
        network_answer(
            arithmetic,
            network.drop_first(),
            layer_answer(arithmetic, network[0], inputs),
        )
    }
}

/// Every gene of the neuron is one that the source may draw.
pub open spec fn neuron_drawn<G: GeneSource>(source: G, neuron: NeuronModel) -> bool {
    &&& source.may_draw(neuron.bias)
    &&& forall|k: int| 0 <= k < neuron.weights.len() ==> source.may_draw(#[trigger] neuron.weights[k])
}

/// Every gene of the layer is one that the source may draw.
pub open spec fn layer_drawn<G: GeneSource>(source: G, layer: Seq<NeuronModel>) -> bool {
    forall|j: int| 0 <= j < layer.len() ==> neuron_drawn(source, #[trigger] layer[j])
}

/// Every gene of the network is one that the source may draw.
pub open spec fn network_drawn<G: GeneSource>(source: G, network: Seq<Seq<NeuronModel>>) -> bool {
    forall|i: int| 0 <= i < network.len() ==> layer_drawn(source, #[trigger] network[i])
}

/// The width of what the network gives for a signal of the given width.
pub open spec fn output_width(network: Seq<Seq<NeuronModel>>, width: nat) -> nat {
    if network.len() == 0 {
        width
    } else {
        network.last().len()
    }
}

/// A network answers by its last layer to what the layers before it
/// answer.
pub proof fn lemma_network_answer_last<A: RealArithmetic>(
    arithmetic: A,
    network: Seq<Seq<NeuronModel>>,
    inputs: Seq<Gene>,
)
    requires
        network.len() > 0,
    ensures
        network_answer(arithmetic, network, inputs) == layer_answer(
            arithmetic,
            network.last(),
            network_answer(arithmetic, network.drop_last(), inputs),
        ),
    decreases network.len(),
{
    let next = layer_answer(arithmetic, network[0], inputs);
    if network.len() == 1 {
        assert(network_answer(arithmetic, network.drop_first(), next) == next);
        assert(network_answer(arithmetic, network.drop_last(), inputs) == inputs);
    } else {
        let front = network.drop_last();
        lemma_network_answer_last(arithmetic, network.drop_first(), next);
        assert(network.drop_first().last() == network.last());
        assert(network.drop_first().drop_last() =~= front.drop_first());
        assert(front[0] == network[0]);
        assert(network_answer(arithmetic, front, inputs) == network_answer(
            arithmetic,
            front.drop_first(),
            next,
        ));
    }
}

/// A network of the topology that has the genes of another answers every
/// signal as the other does: reading a network back from its genes keeps
/// what it computes.
pub proof fn lemma_decoded_network_answers_alike<A: RealArithmetic>(
    arithmetic: A,
    network: Seq<Seq<NeuronModel>>,
    decoded: Seq<Seq<NeuronModel>>,
    widths: Seq<nat>,
    inputs: Seq<Gene>,
)
    requires
        network_has_topology(network, widths),
        network_has_topology(decoded, widths),
        network_genes(decoded) == network_genes(network),
    ensures
        network_answer(arithmetic, decoded, inputs) == network_answer(arithmetic, network, inputs),
{
    lemma_network_genes_injective(decoded, network, widths);
}

/// In this arithmetic zero plus zero is zero, the larger of zero and zero is
/// zero, and zero plus any product by zero is zero.
pub open spec fn zero_absorbs<A: RealArithmetic>(arithmetic: A) -> bool {
    let zero = arithmetic.zero_spec();
    &&& arithmetic.sum_spec(zero, zero) == zero
    &&& arithmetic.larger_spec(zero, zero) == zero
    &&& forall|x: Gene| arithmetic.sum_spec(zero, #[trigger] arithmetic.product_spec(x, zero)) == zero
}

/// Every bias and every weight of the network is zero.
pub open spec fn network_is_zero<A: RealArithmetic>(
    arithmetic: A,
    network: Seq<Seq<NeuronModel>>,
) -> bool {
    forall|i: int, j: int|
        0 <= i < network.len() && 0 <= j < network[i].len() ==> {
            &&& (#[trigger] network[i][j]).bias == arithmetic.zero_spec()
            &&& forall|k: int|
                0 <= k < network[i][j].weights.len() ==> #[trigger] network[i][j].weights[k]
                    == arithmetic.zero_spec()
        }
}

/// The weighted sum over weights that are all zero is zero.
pub proof fn lemma_weighted_sum_of_zero_weights<A: RealArithmetic>(
    arithmetic: A,
    inputs: Seq<Gene>,
    weights: Seq<Gene>,
)
    requires
        zero_absorbs(arithmetic),
        inputs.len() == weights.len(),
        forall|k: int| 0 <= k < weights.len() ==> #[trigger] weights[k] == arithmetic.zero_spec(),
    ensures
        weighted_sum(arithmetic, inputs, weights) == arithmetic.zero_spec(),
    decreases inputs.len(),
{
    if inputs.len() > 0 {
        lemma_weighted_sum_of_zero_weights(arithmetic, inputs.drop_last(), weights.drop_last());
        assert(weights.last() == weights[weights.len() - 1]);
    }
}

/// A network of zero weights and zero biases answers every signal that
/// passes through it with zeros, one for each neuron of its last layer.
pub proof fn lemma_zero_network_answers_zero<A: RealArithmetic>(
    arithmetic: A,
    network: Seq<Seq<NeuronModel>>,
    inputs: Seq<Gene>,
)
    requires
        zero_absorbs(arithmetic),
        network.len() > 0,
        network_takes(network, inputs.len()),
        network_is_zero(arithmetic, network),
    ensures
        network_answer(arithmetic, network, inputs).len() == network.last().len(),
        forall|k: int|
            0 <= k < network.last().len() ==> #[trigger] network_answer(
                arithmetic,
                network,
                inputs,
            )[k] == arithmetic.zero_spec(),
    decreases network.len(),
{
    let first = layer_answer(arithmetic, network[0], inputs);
    let rest = network.drop_first();
    assert forall|j: int| 0 <= j < network[0].len() implies #[trigger] first[j]
        == arithmetic.zero_spec() by {
        let neuron = network[0][j];
        assert(neuron.weights.len() == inputs.len());
        lemma_weighted_sum_of_zero_weights(arithmetic, inputs, neuron.weights);
    }
    if rest.len() == 0 {
        assert(network_answer(arithmetic, rest, first) == first);
        assert(network.last() == network[0]);
    } else {
        assert forall|i: int, j: int| 0 <= i < rest.len() && 0 <= j < rest[i].len() implies {
            &&& (#[trigger] rest[i][j]).bias == arithmetic.zero_spec()
            &&& forall|k: int|
                0 <= k < rest[i][j].weights.len() ==> #[trigger] rest[i][j].weights[k]
                    == arithmetic.zero_spec()
        } by {
            assert(rest[i][j] == network[i + 1][j]);
        }
        lemma_zero_network_answers_zero(arithmetic, rest, first);
        assert(rest.last() == network.last());
    }
}

impl Neuron {
    /// Reads one neuron of `inputs` weights from `weights`, starting at
    /// `start`. There is a neuron to read exactly when `inputs + 1` genes
    /// are left.
    pub fn from_weights(weights: &[Gene], start: usize, inputs: usize) -> (r: Option<Neuron>)
        ensures
            r is Some <==> start + inputs + 1 <= weights@.len(),
            r matches Some(n) ==> n@.weights.len() == inputs && neuron_genes(n@)
                == weights@.subrange(start as int, start + inputs + 1),
    {
        let total: usize = weights.len();
        if start > total || inputs >= total - start {
            return None;
        }
        let bias: Gene = weights[start];
        let mut ws: Vec<Gene> = Vec::new();
        let mut k: usize = 0;
        while k < inputs
            invariant
                k <= inputs,
                total == weights@.len(),
                start + inputs + 1 <= total,
                ws@ == weights@.subrange(start + 1, start + 1 + k),
            decreases inputs - k,
        {
            ws.push(weights[start + 1 + k]);
            k += 1;
            assert(ws@ =~= weights@.subrange(start + 1, start + 1 + k));
        }
        let neuron = Neuron { bias, weights: ws };
        assert(neuron_genes(neuron@) =~= weights@.subrange(start as int, start + inputs + 1));
        Some(neuron)
    }

    /// A neuron of `output_size` weights: the bias is drawn first, then the
    /// weights in order.
    pub fn random<G: GeneSource>(rng: &mut ChaCha8Rng, output_size: usize, source: &G) -> (r: Neuron)
        ensures
            r@.weights.len() == output_size,
            neuron_drawn(*source, r@),
    {
        let bias: Gene = source.draw(rng);
        let mut weights: Vec<Gene> = Vec::new();
        let mut k: usize = 0;
        while k < output_size
            invariant
                k <= output_size,
                weights@.len() == k,
                forall|i: int| 0 <= i < k ==> source.may_draw(#[trigger] weights@[i]),
            decreases output_size - k,
        {
            weights.push(source.draw(rng));
            k += 1;
        }
        Neuron { bias, weights }
    }

    /// The neuron's answer to a signal: the larger of zero and the bias
    /// plus the sum of each input times its weight, the products added up in
    /// order from zero. A signal that is not as wide as the neuron is
    /// refused.
    pub fn propagate<A: RealArithmetic>(&self, inputs: &[Gene], arithmetic: &A) -> (r: Result<
        Gene,
        NetworkError,
    >)
        ensures
            inputs@.len() == self@.weights.len() <==> r is Ok,
            r matches Ok(output) ==> output == neuron_answer(*arithmetic, self@, inputs@),
            r matches Err(e) ==> e == NetworkError::InputMismatch,
    {
        if inputs.len() != self.weights.len() {
            return Err(NetworkError::InputMismatch);
        }
        let mut output: Gene = arithmetic.zero();
        let mut k: usize = 0;
        while k < inputs.len()
            invariant
                k <= inputs@.len(),
                inputs@.len() == self.weights@.len(),
                output == weighted_sum(
                    *arithmetic,
                    inputs@.take(k as int),
                    self.weights@.take(k as int),
                ),
            decreases inputs@.len() - k,
        {
            proof {
                assert(inputs@.take(k + 1).drop_last() =~= inputs@.take(k as int));
                assert(self.weights@.take(k + 1).drop_last() =~= self.weights@.take(k as int));
            }
            output = arithmetic.sum(output, arithmetic.product(inputs[k], self.weights[k]));
            k += 1;
        }
        proof {
            assert(inputs@.take(k as int) =~= inputs@);
            assert(self.weights@.take(k as int) =~= self.weights@);
        }
        Ok(arithmetic.larger(arithmetic.sum(self.bias, output), arithmetic.zero()))
    }

    /// Appends the neuron's genes to `out`.
    pub fn append_genes(&self, out: &mut Vec<Gene>)
        ensures
            final(out)@ == old(out)@ + neuron_genes(self@),
    {
        out.push(self.bias);
        let mut k: usize = 0;
        while k < self.weights.len()
            invariant
                k <= self.weights@.len(),
                out@ == old(out)@ + seq![self.bias] + self.weights@.take(k as int),
            decreases self.weights@.len() - k,
        {
            out.push(self.weights[k]);
            k += 1;
            assert(out@ =~= old(out)@ + seq![self.bias] + self.weights@.take(k as int));
        }
        assert(out@ =~= old(out)@ + neuron_genes(self@));
    }
}

impl Layer {
    /// Reads one layer of `outputs` neurons with `inputs` weights each from
    /// `weights`, starting at `start`, and says where the layer ends. There
    /// is a layer to read exactly when `outputs * (inputs + 1)` genes are
    /// left.
    pub fn from_weights(weights: &[Gene], start: usize, inputs: usize, outputs: usize) -> (r:
        Option<(Layer, usize)>)
        ensures
            r is Some <==> start + outputs * (inputs + 1) <= weights@.len(),
            r matches Some((l, end)) ==> end == start + outputs * (inputs + 1) && layer_has_shape(
                l@,
                inputs as nat,
                outputs as nat,
            ) && layer_genes(l@) == weights@.subrange(start as int, end as int),
    {
        let total: usize = weights.len();
        if start > total {
            assert(outputs * (inputs + 1) >= 0) by (nonlinear_arith);
            return None;
        }
        let mut neurons: Vec<Neuron> = Vec::new();
        let mut cursor: usize = start;
        let mut j: usize = 0;
        let ghost step: int = inputs + 1;
        while j < outputs
            invariant
                j <= outputs,
                step == inputs + 1,
                total == weights@.len(),
                start <= cursor <= total,
                cursor == start + j * step,
                neurons@.len() == j,
                layer_has_shape(neurons@.map_values(|n: Neuron| n@), inputs as nat, j as nat),
                layer_genes(neurons@.map_values(|n: Neuron| n@)) == weights@.subrange(
                    start as int,
                    cursor as int,
                ),
            decreases outputs - j,
        {
            let ghost before = neurons@.map_values(|n: Neuron| n@);
            proof {
                assert((j + 1) * step == j * step + step) by (nonlinear_arith);
                assert(outputs * step >= (j + 1) * step) by (nonlinear_arith)
                    requires
                        outputs >= j + 1,
                        step >= 0,
                ;
            }
            match Neuron::from_weights(weights, cursor, inputs) {
                None => {
                    return None;
                },
                Some(neuron) => {
                    neurons.push(neuron);
                    cursor = cursor + inputs + 1;
                    j += 1;
                    proof {
                        let after = neurons@.map_values(|n: Neuron| n@);
                        assert(after =~= before.push(neuron@));
                        assert(after.drop_last() =~= before);
                        assert(layer_genes(after) =~= weights@.subrange(
                            start as int,
                            cursor as int,
                        ));
                    }
                },
            }
        }
        assert(j * step == outputs * (inputs + 1)) by (nonlinear_arith)
            requires
                j == outputs,
                step == inputs + 1,
        ;
        Some((Layer { neurons }, cursor))
    }

    /// A layer of `output_neurons` neurons with `input_neurons` weights each,
    /// drawn neuron by neuron.
    pub fn random<G: GeneSource>(
        rng: &mut ChaCha8Rng,
        input_neurons: usize,
        output_neurons: usize,
        source: &G,
    ) -> (r: Layer)
        ensures
            layer_has_shape(r@, input_neurons as nat, output_neurons as nat),
            layer_drawn(*source, r@),
    {
        let mut neurons: Vec<Neuron> = Vec::new();
        let mut j: usize = 0;
        while j < output_neurons
            invariant
                j <= output_neurons,
                neurons@.len() == j,
                forall|i: int| 0 <= i < j ==> (#[trigger] neurons@[i])@.weights.len() == input_neurons,
                forall|i: int| 0 <= i < j ==> neuron_drawn(*source, (#[trigger] neurons@[i])@),
            decreases output_neurons - j,
        {
            neurons.push(Neuron::random(rng, input_neurons, source));
            j += 1;
        }
        Layer { neurons }
    }

    /// The layer's answer to a signal: the answer of each neuron, in
    /// order. A signal that some neuron does not take is refused.
    pub fn propagate<A: RealArithmetic>(&self, inputs: &[Gene], arithmetic: &A) -> (r: Result<
        Vec<Gene>,
        NetworkError,
    >)
        ensures
            layer_takes(self@, inputs@.len()) <==> r is Ok,
            r matches Ok(outputs) ==> outputs@ == layer_answer(*arithmetic, self@, inputs@),
            r matches Err(e) ==> e == NetworkError::InputMismatch,
    {
        let mut outputs: Vec<Gene> = Vec::new();
        let mut j: usize = 0;
        while j < self.neurons.len()
            invariant
                j <= self.neurons@.len(),
                outputs@.len() == j,
                forall|i: int| 0 <= i < j ==> (#[trigger] self@[i]).weights.len() == inputs@.len(),
                forall|i: int|
                    0 <= i < j ==> #[trigger] outputs@[i] == neuron_answer(
                        *arithmetic,
                        self@[i],
                        inputs@,
                    ),
            decreases self.neurons@.len() - j,
        {
            match self.neurons[j].propagate(inputs, arithmetic) {
                Ok(output) => {
                    outputs.push(output);
                },
                Err(e) => {
                    assert(self@[j as int].weights.len() != inputs@.len());
                    return Err(e);
                },
            }
            j += 1;
        }
        assert(outputs@ =~= layer_answer(*arithmetic, self@, inputs@));
        Ok(outputs)
    }

    /// Appends the layer's genes to `out`.
    pub fn append_genes(&self, out: &mut Vec<Gene>)
        ensures
            final(out)@ == old(out)@ + layer_genes(self@),
    {
        let mut j: usize = 0;
        assert(self@.take(0) =~= Seq::<NeuronModel>::empty());
        assert(out@ =~= old(out)@ + layer_genes(self@.take(0)));
        while j < self.neurons.len()
            invariant
                j <= self.neurons@.len(),
                self@.len() == self.neurons@.len(),
                out@ == old(out)@ + layer_genes(self@.take(j as int)),
            decreases self.neurons@.len() - j,
        {
            let ghost before = out@;
            self.neurons[j].append_genes(out);
            proof {
                let next = self@.take(j + 1);
                assert(next.drop_last() =~= self@.take(j as int));
                assert(next.last() == self.neurons@[j as int]@);
                assert(out@ =~= old(out)@ + layer_genes(next));
            }
            j += 1;
        }
        assert(self@.take(j as int) =~= self@);
    }
}

impl Network {
    /// Builds the network of the given topology from its genes.
    ///
    /// A topology of fewer than two entries describes no layer and is
    /// refused; so is a gene sequence whose length is not the one that the
    /// topology implies. Otherwise the result is the one network of that
    /// topology whose genes are `weights`.
    pub fn from_weights(layers: &[LayerTopology], weights: &[Gene]) -> (r: Result<
        Network,
        NetworkError,
    >)
        ensures
            layers@.len() < 2 <==> r == Err::<Network, NetworkError>(NetworkError::TopologyTooShort),
            (layers@.len() >= 2 && weights@.len() != gene_count(widths(layers@))) <==> r == Err::<
                Network,
                NetworkError,
            >(NetworkError::LengthMismatch),
            r matches Err(e) ==> e == NetworkError::TopologyTooShort || e
                == NetworkError::LengthMismatch,
            r matches Ok(net) ==> network_has_topology(net@, widths(layers@)) && network_genes(
                net@,
            ) == weights@,
    {
        if layers.len() < 2 {
            return Err(NetworkError::TopologyTooShort);
        }
        let ghost ws = widths(layers@);
        let mut built: Vec<Layer> = Vec::new();
        let mut cursor: usize = 0;
        let mut i: usize = 1;
        assert(gene_count(ws.take(1)) == 0);
        assert(weights@.subrange(0, 0) =~= Seq::<Gene>::empty());
        while i < layers.len()
            invariant
                1 <= i <= layers@.len(),
                ws == widths(layers@),
                cursor <= weights@.len(),
                cursor == gene_count(ws.take(i as int)),
                built@.len() == i - 1,
                network_has_topology(built@.map_values(|l: Layer| l@), ws.take(i as int)),
                network_genes(built@.map_values(|l: Layer| l@)) == weights@.subrange(
                    0,
                    cursor as int,
                ),
            decreases layers@.len() - i,
        {
            let inputs: usize = layers[i - 1].neurons;
            let outputs: usize = layers[i].neurons;
            let ghost before = built@.map_values(|l: Layer| l@);
            proof {
                let next = ws.take(i + 1);
                assert(next.drop_last() =~= ws.take(i as int));
                assert(gene_count(next) == cursor + outputs * (inputs + 1));
                lemma_gene_count_prefix(ws, i + 1);
            }
            match Layer::from_weights(weights, cursor, inputs, outputs) {
                None => {
                    return Err(NetworkError::LengthMismatch);
                },
                Some((layer, end)) => {
                    built.push(layer);
                    cursor = end;
                    i += 1;
                    proof {
                        let after = built@.map_values(|l: Layer| l@);
                        assert(after =~= before.push(layer@));
                        assert(after.drop_last() =~= before);
                        assert(network_genes(after) =~= weights@.subrange(0, cursor as int));
                        assert(network_has_topology(after, ws.take(i as int)));
                    }
                },
            }
        }
        assert(ws.take(i as int) =~= ws);
        if cursor != weights.len() {
            return Err(NetworkError::LengthMismatch);
        }
        assert(weights@.subrange(0, cursor as int) =~= weights@);
        Ok(Network { layers: built })
    }

    /// A network of the given topology with every gene drawn from `source`,
    /// in layout order. A topology of fewer than two entries is refused.
    pub fn random<G: GeneSource>(rng: &mut ChaCha8Rng, layers: &[LayerTopology], source: &G) -> (r:
        Result<Network, NetworkError>)
        ensures
            layers@.len() < 2 <==> r is Err,
            r matches Err(e) ==> e == NetworkError::TopologyTooShort,
            r matches Ok(net) ==> network_has_topology(net@, widths(layers@)) && network_drawn(
                *source,
                net@,
            ),
    {
        if layers.len() < 2 {
            return Err(NetworkError::TopologyTooShort);
        }
        let mut built: Vec<Layer> = Vec::new();
        let mut i: usize = 1;
        while i < layers.len()
            invariant
                1 <= i <= layers@.len(),
                built@.len() == i - 1,
                forall|k: int|
                    0 <= k < i - 1 ==> layer_has_shape(
                        (#[trigger] built@[k])@,
                        layers@[k].neurons as nat,
                        layers@[k + 1].neurons as nat,
                    ),
                forall|k: int| 0 <= k < i - 1 ==> layer_drawn(*source, (#[trigger] built@[k])@),
            decreases layers@.len() - i,
        {
            built.push(Layer::random(rng, layers[i - 1].neurons, layers[i].neurons, source));
            i += 1;
        }
        Ok(Network { layers: built })
    }

    /// The network's answer to a signal: the signal is handed to the first
    /// layer, each layer's answer to the next, and the last layer's answer
    /// comes back. A signal that does not pass through is refused.
    pub fn propagate<A: RealArithmetic>(&self, inputs: Vec<Gene>, arithmetic: &A) -> (r: Result<
        Vec<Gene>,
        NetworkError,
    >)
        ensures
            network_takes(self@, inputs@.len()) <==> r is Ok,
            r matches Ok(outputs) ==> outputs@ == network_answer(*arithmetic, self@, inputs@)
                && outputs@.len() == output_width(self@, inputs@.len()),
            r matches Err(e) ==> e == NetworkError::InputMismatch,
            self@.len() == 0 ==> r == Ok::<Vec<Gene>, NetworkError>(inputs),
    {
        let mut signal: Vec<Gene> = inputs;
        let mut i: usize = 0;
        assert(self@.subrange(0, self@.len() as int) =~= self@);
        while i < self.layers.len()
            invariant
                i <= self.layers@.len(),
                self@.len() == self.layers@.len(),
                network_takes(self@, inputs@.len()) == network_takes(
                    self@.subrange(i as int, self@.len() as int),
                    signal@.len(),
                ),
                network_answer(*arithmetic, self@, inputs@) == network_answer(
                    *arithmetic,
                    self@.subrange(i as int, self@.len() as int),
                    signal@,
                ),
                i == 0 ==> signal == inputs,
                i > 0 ==> signal@.len() == self@[i - 1].len(),
            decreases self.layers@.len() - i,
        {
            let ghost rest = self@.subrange(i as int, self@.len() as int);
            proof {
                assert(rest[0] == self.layers@[i as int]@);
                assert(rest.drop_first() =~= self@.subrange(i + 1, self@.len() as int));
            }
            match self.layers[i].propagate(signal.as_slice(), arithmetic) {
                Ok(outputs) => {
                    signal = outputs;
                },
                Err(e) => {
                    return Err(e);
                },
            }
            i += 1;
        }
        Ok(signal)
    }

    /// The network's genes, in layout order.
    pub fn weights(&self) -> (r: Vec<Gene>)
        ensures
            r@ == network_genes(self@),
    {
        let mut out: Vec<Gene> = Vec::new();
        let mut i: usize = 0;
        assert(self@.take(0) =~= Seq::<Seq<NeuronModel>>::empty());
        assert(out@ =~= network_genes(self@.take(0)));
        while i < self.layers.len()
            invariant
                i <= self.layers@.len(),
                self@.len() == self.layers@.len(),
                out@ == network_genes(self@.take(i as int)),
            decreases self.layers@.len() - i,
        {
            self.layers[i].append_genes(&mut out);
            proof {
                let next = self@.take(i + 1);
                assert(next.drop_last() =~= self@.take(i as int));
                assert(next.last() == self.layers@[i as int]@);
            }
            i += 1;
        }
        assert(self@.take(i as int) =~= self@);
        out
    }

    /// Encodes the network and reads it back under `layers`. For a network
    /// of that topology this always succeeds and gives the same network.
    pub fn round_trip(&self, layers: &[LayerTopology]) -> (r: Result<Network, NetworkError>)
        requires
            network_has_topology(self@, widths(layers@)),
        ensures
            self@.len() >= 1 ==> r is Ok,
            r matches Ok(net) ==> net@ == self@,
    {
        let genes = self.weights();
        proof {
            lemma_network_genes_len(self@, widths(layers@));
        }
        let r = Network::from_weights(layers, genes.as_slice());
        proof {
            assert(widths(layers@).len() == layers@.len());
            if r is Ok {
                lemma_network_genes_injective(r->Ok_0@, self@, widths(layers@));
            }
        }
        r
    }
}

} // verus!
