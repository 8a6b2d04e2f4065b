//! The layered node model: nodes, layers, and the network that owns them.
//!
//! A network stores the hidden layers and the output layer; the input layer
//! is never materialized, its width is only the weight count of the first
//! stored layer.  Biases, weights and learning rates are 32-bit IEEE-754 bit
//! patterns, so the shape invariants and the persistence round trip are
//! stated over exact values.

use vstd::prelude::*;

verus! {

/// One neuron: its bias, the weights of its connections to the previous
/// layer, and its position within its own layer.
#[derive(Clone)]
pub struct Node {
    /// Bit pattern of the bias, a value added independently of the inputs.
    pub bias: u32,
    /// Bit patterns of the weights, one per node of the previous layer.
    pub weights: Vec<u32>,
    /// The node's index within its own layer, fixed at construction.
    pub personal_pos: usize,
}

/// A node is well formed at position `pos` of a layer whose previous layer
/// has `weight_count` nodes when it carries exactly one weight per previous
/// node and remembers its own position.
pub open spec fn node_wf(n: Node, weight_count: nat, pos: nat) -> bool {
    &&& n.weights@.len() == weight_count
    &&& n.personal_pos == pos
}

/// A layer of nodes sharing an input width and a learning rate.
#[derive(Clone)]
pub struct Layer {
    /// The nodes of the layer, in order of their positions.
    pub nodes: Vec<Node>,
    /// Equal to `nodes.len()` and never changed afterwards.
    pub node_count: usize,
    /// Bit pattern of the learning rate shared by the layer's nodes.
    pub learning_rate: u32,
}

/// A layer is well formed over a previous layer of `weight_count` nodes when
/// its recorded count matches its nodes and every node is well formed at its
/// index.
pub open spec fn layer_wf(l: Layer, weight_count: nat) -> bool {
    &&& l.node_count == l.nodes@.len()
    &&& forall|i: int|
        0 <= i < l.nodes@.len() ==> node_wf(#[trigger] l.nodes@[i], weight_count, i as nat)
}

/// The network: the hidden layers and the output layer, in order.
#[derive(Clone)]
pub struct Network {
    /// The stored layers; `layers[0]` consumes the raw input.
    pub layers: Vec<Layer>,
    /// Equal to `layers.len()` and never changed afterwards.
    pub layer_count: usize,
}

/// A network is well formed over a topology `form` (input width first, then
/// one width per stored layer) when it has one layer per consecutive pair of
/// widths and layer `i` is `form[i + 1]` nodes wide, each node with
/// `form[i]` weights.
pub open spec fn network_wf(net: Network, form: Seq<usize>) -> bool {
    &&& form.len() >= 2
    &&& net.layer_count == net.layers@.len()
    &&& net.layers@.len() == form.len() - 1
    &&& forall|i: int|
        0 <= i < net.layers@.len() ==> layer_wf(#[trigger] net.layers@[i], form[i] as nat)
    &&& forall|i: int|
        0 <= i < net.layers@.len() ==> (#[trigger] net.layers@[i]).nodes@.len() == form[i + 1]
}

/// The shape invariant chains through the network: the weight count of every
/// layer after the first equals the node count of the layer before it, and
/// the first layer's weight count is the declared input width.
pub proof fn lemma_network_shape_chain(net: Network, form: Seq<usize>)
    requires
        network_wf(net, form),
    ensures
        forall|i: int, j: int|
            0 <= i < net.layers@.len() && 0 <= j < net.layers@[i].nodes@.len() ==> (#[trigger] net.layers@[i].nodes@[j]).weights@.len() == if i == 0 {
                form[0] as nat
            } else {
                net.layers@[i - 1].nodes@.len()
            },
{
    assert forall|i: int, j: int|
        0 <= i < net.layers@.len() && 0 <= j < net.layers@[i].nodes@.len() implies (#[trigger] net.layers@[i].nodes@[j]).weights@.len() == if i == 0 {
        form[0] as nat
    } else {
        net.layers@[i - 1].nodes@.len()
    } by {
        assert(layer_wf(net.layers@[i], form[i] as nat));
        assert(node_wf(net.layers@[i].nodes@[j], form[i] as nat, j as nat));
        if i > 0 {
            assert(net.layers@[i - 1].nodes@.len() == form[i]);
        }
    }
}

/// Two nodes have the same shape when they sit at the same position and
/// carry the same number of weights.
pub open spec fn node_same_shape(a: Node, b: Node) -> bool {
    &&& a.weights@.len() == b.weights@.len()
    &&& a.personal_pos == b.personal_pos
}

/// Two layers have the same shape when their node lists line up node for
/// node.
pub open spec fn layer_same_shape(a: Layer, b: Layer) -> bool {
    &&& a.node_count == b.node_count
    &&& a.nodes@.len() == b.nodes@.len()
    &&& forall|i: int|
        0 <= i < a.nodes@.len() ==> node_same_shape(#[trigger] a.nodes@[i], b.nodes@[i])
}

/// Two networks have the same shape when their layers line up layer for
/// layer.
pub open spec fn network_same_shape(a: Network, b: Network) -> bool {
    &&& a.layer_count == b.layer_count
    &&& a.layers@.len() == b.layers@.len()
    &&& forall|i: int|
        0 <= i < a.layers@.len() ==> layer_same_shape(#[trigger] a.layers@[i], b.layers@[i])
}

/// Training only replaces the values of weights and biases, never the shape;
/// so any network of the same shape as a well-formed one is well formed over
/// the same topology.
pub proof fn lemma_same_shape_preserves_wf(a: Network, b: Network, form: Seq<usize>)
    requires
        network_wf(a, form),
        network_same_shape(a, b),
    ensures
        network_wf(b, form),
{
    assert forall|i: int| 0 <= i < b.layers@.len() implies layer_wf(
        #[trigger] b.layers@[i],
        form[i] as nat,
    ) by {
        assert(layer_wf(a.layers@[i], form[i] as nat));
        assert(layer_same_shape(a.layers@[i], b.layers@[i]));
        assert forall|j: int| 0 <= j < b.layers@[i].nodes@.len() implies node_wf(
            #[trigger] b.layers@[i].nodes@[j],
            form[i] as nat,
            j as nat,
        ) by {
            assert(node_wf(a.layers@[i].nodes@[j], form[i] as nat, j as nat));
            assert(node_same_shape(a.layers@[i].nodes@[j], b.layers@[i].nodes@[j]));
        }
    }
    assert forall|i: int| 0 <= i < b.layers@.len() implies (#[trigger] b.layers@[i]).nodes@.len()
        == form[i + 1] by {
        assert(layer_same_shape(a.layers@[i], b.layers@[i]));
        assert(a.layers@[i].nodes@.len() == form[i + 1]);
    }
}

/// Finds the biggest word in a slice together with every position at which
/// it occurs, in increasing order of position.
///
/// Network outputs are sigmoid activations, whose bit patterns order the
/// same way as their values (the sign bit is clear and the pattern grows
/// with the value), so on a vector of activation bit patterns this returns
/// the biggest activation and the positions that attain it.  An empty slice
/// yields zero and no positions.
pub fn find_biggest(numbers: &[u32]) -> (r: (u32, Vec<usize>))
    ensures
        numbers@.len() == 0 ==> r.0 == 0 && r.1@.len() == 0,
        numbers@.len() > 0 ==> numbers@.contains(r.0),
        forall|i: int| 0 <= i < numbers@.len() ==> numbers@[i] <= r.0,
        forall|k: int|
            0 <= k < r.1@.len() ==> (#[trigger] r.1@[k]) < numbers@.len() && numbers@[r.1@[k] as int]
                == r.0,
        forall|i: int|
            0 <= i < numbers@.len() && numbers@[i] == r.0 ==> r.1@.contains(i as usize),
        forall|k: int| 0 <= k < r.1@.len() - 1 ==> #[trigger] r.1@[k] < r.1@[k + 1],
{
    let mut biggest_number: u32 = 0;
    let mut biggest_number_positions: Vec<usize> = Vec::new();
    let num_len = numbers.len();
    let mut num: usize = 0;
    while num < num_len
        invariant
            num_len == numbers@.len(),
            0 <= num <= num_len,
            num == 0 ==> biggest_number == 0 && biggest_number_positions@.len() == 0,
            num > 0 ==> numbers@.take(num as int).contains(biggest_number),
            forall|i: int| 0 <= i < num ==> numbers@[i] <= biggest_number,
            forall|k: int|
                0 <= k < biggest_number_positions@.len() ==> (#[trigger] biggest_number_positions@[k])
                    < num && numbers@[biggest_number_positions@[k] as int] == biggest_number,
            forall|i: int|
                0 <= i < num && numbers@[i] == biggest_number
                    ==> biggest_number_positions@.contains(i as usize),
            forall|k: int|
                0 <= k < biggest_number_positions@.len() - 1
                    ==> #[trigger] biggest_number_positions@[k] < biggest_number_positions@[k + 1],
        decreases num_len - num,
    {
        let ghost pre = biggest_number_positions@;
        if numbers[num] > biggest_number {
            biggest_number = numbers[num];
            biggest_number_positions = vec![num];
            proof {
                assert(biggest_number_positions@ =~= seq![num]);
                assert(numbers@.take(num + 1)[num as int] == biggest_number);
                assert forall|i: int|
                    0 <= i < num + 1 && numbers@[i] == biggest_number implies biggest_number_positions@.contains(
                    i as usize,
                ) by {
                    assert(i == num);
                    assert(biggest_number_positions@[0] == i as usize);
                }
            }
        } else if numbers[num] == biggest_number {
            biggest_number_positions.push(num);
            proof {
                assert(biggest_number_positions@ == pre.push(num));
                assert(numbers@.take(num + 1)[num as int] == biggest_number);
                assert forall|i: int|
                    0 <= i < num + 1 && numbers@[i] == biggest_number implies biggest_number_positions@.contains(
                    i as usize,
                ) by {
                    if i < num {
                        assert(pre.contains(i as usize));
                        let k = choose|k: int| 0 <= k < pre.len() && pre[k] == i as usize;
                        assert(biggest_number_positions@[k] == i as usize);
                    } else {
                        assert(biggest_number_positions@.last() == i as usize);
                    }
                }
                assert forall|k: int|
                    0 <= k < biggest_number_positions@.len() - 1 implies #[trigger] biggest_number_positions@[k]
                    < biggest_number_positions@[k + 1] by {
                    if k < pre.len() - 1 {
                        assert(pre[k] < pre[k + 1]);
                    } else {
                        assert(biggest_number_positions@[k] == pre[k]);
                        assert(pre[k] < num);
                    }
                }
            }
        } else {
            proof {
                let w = choose|i: int|
                    0 <= i < num && numbers@.take(num as int)[i] == biggest_number;
                assert(numbers@.take(num + 1)[w] == biggest_number);
            }
        }
        num = num + 1;
    }
    proof {
        if num_len > 0 {
            assert(numbers@.take(num_len as int) =~= numbers@);
        }
    }
    (biggest_number, biggest_number_positions)
}

} // verus!
