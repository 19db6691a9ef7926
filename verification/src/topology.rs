//! The shape of a network: how many neurons each layer has, which role a
//! layer plays, and whether vectors and stored weights fit that shape.

use vstd::prelude::*;

verus! {

/// Why a configuration describes no network.
#[derive(Debug, Clone, Copy, PartialEq, Eq, Structural)]
pub enum ConfigurationError {
    /// There are fewer than two layers: a network needs an input and an
    /// output layer.
    TooFewLayers,
    /// The number of activation selections is not one less than the number of
    /// layers.
    ActivationCount,
}

/// An activation that a configuration can select for a layer.
#[derive(Debug, Clone, Copy, PartialEq, Eq, Structural)]
pub enum Activation {
    Sigmoid,
    ReLU,
    Softmax,
}

/// The bytes of the word `relu`.
pub open spec fn relu_word() -> Seq<u8> {
    seq![114u8, 101u8, 108u8, 117u8]
}

/// The bytes of the word `softmax`.
pub open spec fn softmax_word() -> Seq<u8> {
    seq![115u8, 111u8, 102u8, 116u8, 109u8, 97u8, 120u8]
}

/// The activation that a name selects: `relu` and `softmax` select their own,
/// and every other name, `sigmoid` among them, selects the sigmoid.
pub open spec fn selected_by(name: Seq<u8>) -> Activation {
    if name == relu_word() {
        Activation::ReLU
    } else if name == softmax_word() {
        Activation::Softmax
    } else {
        Activation::Sigmoid
    }
}

impl Activation {
    /// The activation that `name` selects. The name is compared byte for
    /// byte: with a capital letter or a space in it, it selects the sigmoid.
    pub fn from_name(name: &[u8]) -> (activation: Activation)
        ensures
            activation == selected_by(name@),
    {
        if name.len() == 4 && name[0] == 114 && name[1] == 101 && name[2] == 108 && name[3]
            == 117 {
            proof {
                assert(name@ =~= relu_word());
            }
            Activation::ReLU
        } else if name.len() == 7 && name[0] == 115 && name[1] == 111 && name[2] == 102
            && name[3] == 116 && name[4] == 109 && name[5] == 97 && name[6] == 120 {
            proof {
                assert(name@ =~= softmax_word());
            }
            Activation::Softmax
        } else {
            proof {
                assert(relu_word().len() == 4 && softmax_word().len() == 7);
                assert(relu_word()[0] == 114 && relu_word()[1] == 101 && relu_word()[2] == 108
                    && relu_word()[3] == 117);
                assert(softmax_word()[0] == 115 && softmax_word()[1] == 111 && softmax_word()[2]
                    == 102 && softmax_word()[3] == 116 && softmax_word()[4] == 109
                    && softmax_word()[5] == 97 && softmax_word()[6] == 120);
            }
            Activation::Sigmoid
        }
    }
}

/// Where a vector or a stored network does not fit a topology.
#[derive(Debug, Clone, Copy, PartialEq, Eq, Structural)]
pub enum ShapeMismatch {
    /// An input vector is not as long as the input layer.
    Input,
    /// A target vector is not as long as the output layer.
    Target,
    /// The network does not have as many layers as the topology.
    LayerCount,
    /// The layer does not have as many neurons as the topology gives it.
    NeuronCount { layer: usize },
    /// The neuron does not have one weight for each neuron of the layer
    /// before its own.
    WeightCount { layer: usize, neuron: usize },
}

/// What a layer does with its weighted sums, which follows from its place:
/// the input layer passes its inputs on, a hidden layer applies the sigmoid
/// to each sum, and the output layer applies softmax to all its sums at once.
#[derive(Debug, Clone, Copy, PartialEq, Eq, Structural)]
pub enum LayerRole {
    Input,
    Hidden,
    Output,
}

/// The role of layer `layer` among `count` layers.
pub open spec fn role_at(count: nat, layer: int) -> LayerRole {
    if layer == 0 {
        LayerRole::Input
    } else if layer == count - 1 {
        LayerRole::Output
    } else {
        LayerRole::Hidden
    }
}

/// How many weights a neuron of layer `layer` has: none in the input layer,
/// and elsewhere one for each neuron of the layer before.
pub open spec fn fan_in(sizes: Seq<usize>, layer: int) -> int {
    if layer <= 0 {
        0
    } else {
        sizes[layer - 1] as int
    }
}

/// Whether layer `layer` of a stored network fits: it has the neurons that
/// `sizes` gives it, and, unless it is the input layer, each of them has its
/// fan-in of weights. `counts[l][j]` is the number of weights of neuron `j` of
/// layer `l`.
pub open spec fn layer_fits(sizes: Seq<usize>, counts: Seq<Vec<usize>>, layer: int) -> bool {
    &&& counts[layer]@.len() == sizes[layer]
    &&& layer > 0 ==> forall|j: int|
        0 <= j < counts[layer]@.len() ==> #[trigger] counts[layer]@[j] == fan_in(sizes, layer)
}

/// Whether a stored network fits: it has as many layers as `sizes`, and each
/// of them fits.
pub open spec fn network_fits(sizes: Seq<usize>, counts: Seq<Vec<usize>>) -> bool {
    &&& counts.len() == sizes.len()
    &&& forall|l: int| 0 <= l < sizes.len() ==> #[trigger] layer_fits(sizes, counts, l)
}

/// The layer sizes of a network, first the input layer and last the output
/// layer. There are always at least two.
pub struct Topology {
    sizes: Vec<usize>,
}

impl View for Topology {
    type V = Seq<usize>;

    closed spec fn view(&self) -> Seq<usize> {
        self.sizes@
    }
}

impl Topology {
    /// A topology has an input and an output layer.
    #[verifier::type_invariant]
    spec fn has_both_ends(&self) -> bool {
        self.sizes@.len() >= 2
    }

    /// Builds the topology of a configuration: its layer sizes, and the number
    /// of activation selections that came with them.
    ///
    /// The selections are counted and not applied: what a layer does follows
    /// from its role alone.
    pub fn new(layers: &[usize], activation_count: usize) -> (made: Result<
        Topology,
        ConfigurationError,
    >)
        ensures
            layers@.len() < 2 ==> made == Err::<Topology, ConfigurationError>(
                ConfigurationError::TooFewLayers,
            ),
            layers@.len() >= 2 && activation_count != layers@.len() - 1 ==> made == Err::<
                Topology,
                ConfigurationError,
            >(ConfigurationError::ActivationCount),
            layers@.len() >= 2 && activation_count == layers@.len() - 1 ==> made.is_ok()
                && made.unwrap()@ == layers@,
    {
        if layers.len() < 2 {
            return Err(ConfigurationError::TooFewLayers);
        }
        if activation_count != layers.len() - 1 {
            return Err(ConfigurationError::ActivationCount);
        }
        let mut sizes: Vec<usize> = Vec::new();
        let mut i: usize = 0;
        while i < layers.len()
            invariant
                i <= layers@.len(),
                sizes@ == layers@.take(i as int),
            decreases layers.len() - i,
        {
            sizes.push(layers[i]);
            proof {
                assert(layers@.take(i as int + 1) == layers@.take(i as int).push(layers@[i as int]));
            }
            i += 1;
        }
        proof {
            assert(layers@.take(i as int) == layers@);
        }
        Ok(Topology { sizes })
    }

    /// The number of layers.
    pub fn layer_count(&self) -> (count: usize)
        ensures
            count == self@.len(),
            count >= 2,
    {
        proof {
            use_type_invariant(self);
        }
        self.sizes.len()
    }

    /// The number of neurons of layer `layer`, or `None` where there is no
    /// such layer.
    pub fn layer_size(&self, layer: usize) -> (size: Option<usize>)
        ensures
            layer < self@.len() ==> size == Some(self@[layer as int]),
            layer >= self@.len() ==> size.is_none(),
    {
        if layer < self.sizes.len() {
            Some(self.sizes[layer])
        } else {
            None
        }
    }

    /// The length of an input vector: the size of the first layer.
    pub fn input_size(&self) -> (size: usize)
        ensures
            size == self@[0],
    {
        proof {
            use_type_invariant(self);
        }
        self.sizes[0]
    }

    /// The length of a target vector: the size of the last layer.
    pub fn output_size(&self) -> (size: usize)
        ensures
            size == self@[self@.len() - 1],
    {
        proof {
            use_type_invariant(self);
        }
        self.sizes[self.sizes.len() - 1]
    }

    /// The role of layer `layer`, or `None` where there is no such layer.
    pub fn role(&self, layer: usize) -> (role: Option<LayerRole>)
        ensures
            layer < self@.len() ==> role == Some(role_at(self@.len(), layer as int)),
            layer >= self@.len() ==> role.is_none(),
    {
        if layer >= self.sizes.len() {
            None
        } else if layer == 0 {
            Some(LayerRole::Input)
        } else if layer == self.sizes.len() - 1 {
            Some(LayerRole::Output)
        } else {
            Some(LayerRole::Hidden)
        }
    }

    /// Accepts an input vector of `len` entries exactly when the input layer
    /// has `len` neurons.
    pub fn check_input(&self, len: usize) -> (checked: Result<(), ShapeMismatch>)
        ensures
            len == self@[0] ==> checked.is_ok(),
            len != self@[0] ==> checked == Err::<(), ShapeMismatch>(ShapeMismatch::Input),
    {
        if len == self.input_size() {
            Ok(())
        } else {
            Err(ShapeMismatch::Input)
        }
    }

    /// Accepts a target vector of `len` entries exactly when the output layer
    /// has `len` neurons.
    pub fn check_target(&self, len: usize) -> (checked: Result<(), ShapeMismatch>)
        ensures
            len == self@[self@.len() - 1] ==> checked.is_ok(),
            len != self@[self@.len() - 1] ==> checked == Err::<(), ShapeMismatch>(
                ShapeMismatch::Target,
            ),
    {
        if len == self.output_size() {
            Ok(())
        } else {
            Err(ShapeMismatch::Target)
        }
    }

    /// Checks a stored network against the topology. `counts[l][j]` is the
    /// number of weights that neuron `j` of layer `l` holds.
    ///
    /// The network is accepted exactly when it fits. Otherwise the error names
    /// the first fault, going through the layers in order, in each layer first
    /// to its number of neurons and then through its neurons in order.
    pub fn check_network(&self, counts: &[Vec<usize>]) -> (checked: Result<(), ShapeMismatch>)
        ensures
            checked.is_ok() <==> network_fits(self@, counts@),
            checked.is_err() ==> match checked.unwrap_err() {
                ShapeMismatch::LayerCount => counts@.len() != self@.len(),
                ShapeMismatch::NeuronCount { layer } => {
                    &&& counts@.len() == self@.len()
                    &&& layer < self@.len()
                    &&& forall|l: int| 0 <= l < layer ==> #[trigger] layer_fits(self@, counts@, l)
                    &&& counts@[layer as int]@.len() != self@[layer as int]
                },
                ShapeMismatch::WeightCount { layer, neuron } => {
                    &&& counts@.len() == self@.len()
                    &&& 0 < layer < self@.len()
                    &&& forall|l: int| 0 <= l < layer ==> #[trigger] layer_fits(self@, counts@, l)
                    &&& counts@[layer as int]@.len() == self@[layer as int]
                    &&& neuron < counts@[layer as int]@.len()
                    &&& forall|j: int|
                        0 <= j < neuron ==> #[trigger] counts@[layer as int]@[j] == fan_in(
                            self@,
                            layer as int,
                        )
                    &&& counts@[layer as int]@[neuron as int] != fan_in(self@, layer as int)
                },
                ShapeMismatch::Input | ShapeMismatch::Target => false,
            },
    {
        if counts.len() != self.sizes.len() {
            return Err(ShapeMismatch::LayerCount);
        }
        let mut l: usize = 0;
        while l < counts.len()
            invariant
                counts@.len() == self@.len(),
                l <= counts@.len(),
                forall|k: int| 0 <= k < l ==> #[trigger] layer_fits(self@, counts@, k),
            decreases counts.len() - l,
        {
            let row: &Vec<usize> = &counts[l];
            if row.len() != self.sizes[l] {
                proof {
                    assert(!layer_fits(self@, counts@, l as int));
                }
                return Err(ShapeMismatch::NeuronCount { layer: l });
            }
            if l > 0 {
                let expected: usize = self.sizes[l - 1];
                let mut j: usize = 0;
                while j < row.len()
                    invariant
                        counts@.len() == self@.len(),
                        0 < l < counts@.len(),
                        row@ == counts@[l as int]@,
                        row@.len() == self@[l as int],
                        expected == fan_in(self@, l as int),
                        forall|k: int| 0 <= k < l ==> #[trigger] layer_fits(self@, counts@, k),
                        j <= row@.len(),
                        forall|k: int| 0 <= k < j ==> #[trigger] row@[k] == expected,
                    decreases row.len() - j,
                {
                    if row[j] != expected {
                        proof {
                            assert(!layer_fits(self@, counts@, l as int));
                        }
                        return Err(ShapeMismatch::WeightCount { layer: l, neuron: j });
                    }
                    j += 1;
                }
            }
            l += 1;
        }
        Ok(())
    }
}

} // verus!
