//! Persistence of layers as tables of records.
//!
//! A layer is written as one table: one record per node, holding the bias
//! first and then the weights, each as the decimal text of its 32-bit bit
//! pattern.  Reading validates the table against the declared topology and
//! rebuilds the layer bit for bit; the round-trip lemmas at the end state
//! that writing and reading back reproduces a well-formed layer — and a
//! whole network — exactly, so a reloaded network computes the very same
//! activations.  Writing the tables to files and reading them back is the
//! caller's business.

use vstd::prelude::*;
use crate::decimal::{dec_of, dec_val, field_ok, render_u32, parse_u32, lemma_dec_round_trip};
use crate::nodes_layers::{
    Node, Layer, Network, node_wf, layer_wf, network_wf, node_same_shape, layer_same_shape,
    network_same_shape, lemma_same_shape_preserves_wf,
};

verus! {

/// A loaded table does not fit the declared topology: its node count or its
/// weight count disagrees with what the network expects.
#[derive(Debug)]
pub struct UnfittingLayerError {
    /// What did not fit, in words.
    pub details: String,
}

impl UnfittingLayerError {
    /// Wraps a description of the mismatch.
    pub fn new(msg: &str) -> (r: UnfittingLayerError)
        ensures
            r.details@ == msg@,
    {
        UnfittingLayerError { details: msg.to_owned() }
    }

    /// The description of the mismatch, for reporting.
    pub fn message(&self) -> (r: String)
        ensures
            r@ == self.details@,
    {
        self.details.clone()
    }
}

/// Checks a freshly loaded node list against the declared topology: the
/// node count must match the expected layer width, and every node's weight
/// count the expected width of the previous layer.  Returns the
/// structural-mismatch error exactly when one of the two disagrees.
pub fn raises_unfitting_layer_error(
    nodes: &Vec<Node>,
    desired_weight_count: usize,
    desired_node_count: usize,
) -> (r: Result<(), UnfittingLayerError>)
    ensures
        (r matches Ok(_)) <==> (desired_node_count == nodes@.len() && forall|i: int|
            0 <= i < nodes@.len() ==> (#[trigger] nodes@[i]).weights@.len()
                == desired_weight_count),
        desired_node_count != nodes@.len() ==> (r matches Err(e) && e.details@
            == "the layer does not hold the expected number of nodes"@),
        desired_node_count == nodes@.len() && (exists|i: int|
            0 <= i < nodes@.len() && (#[trigger] nodes@[i]).weights@.len()
                != desired_weight_count) ==> (r matches Err(e) && e.details@
            == "the layer's nodes do not hold the expected number of weights"@),
{
    if desired_node_count == 0 && nodes.len() == 0 {
        return Ok(());
    }
    if desired_node_count != nodes.len() {
        return Err(UnfittingLayerError::new("the layer does not hold the expected number of nodes"));
    }
    let mut i: usize = 0;
    while i < nodes.len()
        invariant
            0 <= i <= nodes@.len(),
            desired_node_count == nodes@.len(),
            forall|k: int|
                0 <= k < i ==> (#[trigger] nodes@[k]).weights@.len() == desired_weight_count,
        decreases nodes@.len() - i,
    {
        if nodes[i].weights.len() != desired_weight_count {
            return Err(
                UnfittingLayerError::new(
                    "the layer's nodes do not hold the expected number of weights",
                ),
            );
        }
        i = i + 1;
    }
    Ok(())
}

/// `rec` is the written record of node `n`: the bias first, then the
/// weights, each as the decimal text of its bit pattern.
pub open spec fn record_of_node(rec: Vec<Vec<u8>>, n: Node) -> bool {
    &&& rec@.len() == n.weights@.len() + 1
    &&& rec@[0]@ == dec_of(n.bias as nat)
    &&& forall|j: int|
        1 <= j < rec@.len() ==> (#[trigger] rec@[j])@ == dec_of(n.weights@[j - 1] as nat)
}

/// `records` is the written table of layer `l`: one record per node, in
/// position order.
pub open spec fn records_of_layer(records: Vec<Vec<Vec<u8>>>, l: Layer) -> bool {
    &&& records@.len() == l.nodes@.len()
    &&& forall|i: int|
        0 <= i < records@.len() ==> record_of_node(#[trigger] records@[i], l.nodes@[i])
}

/// Every field of the record is readable as a 32-bit word, and there is at
/// least the bias field.
pub open spec fn record_fields_ok(rec: Vec<Vec<u8>>) -> bool {
    &&& rec@.len() >= 1
    &&& forall|j: int| 0 <= j < rec@.len() ==> field_ok((#[trigger] rec@[j])@)
}

/// Node `n` is what reading `rec` at position `pos` yields: the first field
/// as the bias, the remaining fields as the weights, and the position
/// remembered.
pub open spec fn node_reads_record(n: Node, rec: Vec<Vec<u8>>, pos: nat) -> bool {
    &&& n.bias == dec_val(rec@[0]@)
    &&& n.personal_pos == pos
    &&& n.weights@.len() == rec@.len() - 1
    &&& forall|j: int| 0 <= j < n.weights@.len() ==> #[trigger] n.weights@[j] == dec_val(
        rec@[j + 1]@,
    )
}

/// Reads one record back into a node that will sit at position `pos` of its
/// layer.  Fails exactly when the record is empty or a field is not
/// readable as a 32-bit word.
pub fn record_to_node(record: &Vec<Vec<u8>>, pos: usize) -> (r: Option<Node>)
    ensures
        match r {
            Some(n) => record_fields_ok(*record) && node_reads_record(n, *record, pos as nat),
            None => !record_fields_ok(*record),
        },
{
    if record.len() == 0 {
        return None;
    }
    let bias = match parse_u32(record[0].as_slice()) {
        Some(b) => b,
        None => {
            return None;
        },
    };
    let mut weights: Vec<u32> = Vec::new();
    let mut j: usize = 1;
    while j < record.len()
        invariant
            1 <= j <= record@.len(),
            record@.len() >= 1,
            bias == dec_val(record@[0]@),
            forall|k: int| 0 <= k < j ==> field_ok((#[trigger] record@[k])@),
            weights@.len() == j - 1,
            forall|k: int| 0 <= k < weights@.len() ==> #[trigger] weights@[k] == dec_val(
                record@[k + 1]@,
            ),
        decreases record@.len() - j,
    {
        match parse_u32(record[j].as_slice()) {
            Some(w) => weights.push(w),
            None => {
                return None;
            },
        }
        j = j + 1;
    }
    Some(Node { bias, weights, personal_pos: pos })
}

/// Writes one node as a record.
pub fn node_to_record(node: &Node) -> (r: Vec<Vec<u8>>)
    ensures
        record_of_node(r, *node),
{
    let mut record: Vec<Vec<u8>> = Vec::new();
    record.push(render_u32(node.bias));
    let mut j: usize = 0;
    while j < node.weights.len()
        invariant
            0 <= j <= node.weights@.len(),
            record@.len() == j + 1,
            record@[0]@ == dec_of(node.bias as nat),
            forall|k: int|
                1 <= k < record@.len() ==> (#[trigger] record@[k])@ == dec_of(
                    node.weights@[k - 1] as nat,
                ),
        decreases node.weights@.len() - j,
    {
        record.push(render_u32(node.weights[j]));
        j = j + 1;
    }
    record
}

/// Writes a layer as its table, one record per node in position order.
pub fn layer_to_records(layer: &Layer) -> (r: Vec<Vec<Vec<u8>>>)
    ensures
        records_of_layer(r, *layer),
{
    let mut records: Vec<Vec<Vec<u8>>> = Vec::new();
    let mut i: usize = 0;
    while i < layer.nodes.len()
        invariant
            0 <= i <= layer.nodes@.len(),
            records@.len() == i,
            forall|k: int|
                0 <= k < i ==> record_of_node(#[trigger] records@[k], layer.nodes@[k]),
        decreases layer.nodes@.len() - i,
    {
        records.push(node_to_record(&layer.nodes[i]));
        i = i + 1;
    }
    records
}

/// Why a table could not be read back as a layer.
pub enum LayerLoadError {
    /// A record is empty or one of its fields is not readable as a 32-bit
    /// word.
    BadField,
    /// Every field was readable, but the table does not fit the declared
    /// topology.
    Unfitting(UnfittingLayerError),
}

/// Every record of the table passes the field check.
pub open spec fn all_records_ok(records: Vec<Vec<Vec<u8>>>) -> bool {
    forall|i: int| 0 <= i < records@.len() ==> record_fields_ok(#[trigger] records@[i])
}

/// The table fits the declared topology: as many records as the layer is
/// wide, and every record carrying one weight field per node of the
/// previous layer.
pub open spec fn records_shape_ok(
    records: Vec<Vec<Vec<u8>>>,
    desired_weight_count: usize,
    desired_node_count: usize,
) -> bool {
    &&& desired_node_count == records@.len()
    &&& forall|i: int|
        0 <= i < records@.len() ==> (#[trigger] records@[i])@.len() - 1 == desired_weight_count
}

/// Layer `l` is what reading `records` with learning rate `lr` yields.
pub open spec fn layer_reads_records(l: Layer, records: Vec<Vec<Vec<u8>>>, lr: u32) -> bool {
    &&& l.node_count == records@.len()
    &&& l.learning_rate == lr
    &&& l.nodes@.len() == records@.len()
    &&& forall|i: int|
        0 <= i < records@.len() ==> node_reads_record(#[trigger] l.nodes@[i], records@[i], i as nat)
}

/// Reads a table back into a layer, validating it against the declared
/// topology.  Fails with `BadField` exactly when some field is unreadable,
/// and with the structural-mismatch error exactly when all fields read but
/// the node or weight count disagrees with the expected widths.
pub fn records_to_layer(
    records: &Vec<Vec<Vec<u8>>>,
    desired_weight_count: usize,
    desired_node_count: usize,
    learning_rate: u32,
) -> (r: Result<Layer, LayerLoadError>)
    ensures
        match r {
            Ok(l) => all_records_ok(*records) && records_shape_ok(
                *records,
                desired_weight_count,
                desired_node_count,
            ) && layer_reads_records(l, *records, learning_rate) && layer_wf(
                l,
                desired_weight_count as nat,
            ) && l.node_count == desired_node_count,
            Err(LayerLoadError::BadField) => !all_records_ok(*records),
            Err(LayerLoadError::Unfitting(e)) => all_records_ok(*records) && !records_shape_ok(
                *records,
                desired_weight_count,
                desired_node_count,
            ) && e.details@ == if desired_node_count != records@.len() {
                "the layer does not hold the expected number of nodes"@
            } else {
                "the layer's nodes do not hold the expected number of weights"@
            },
        },
{
    let mut nodes: Vec<Node> = Vec::new();
    let mut i: usize = 0;
    while i < records.len()
        invariant
            0 <= i <= records@.len(),
            nodes@.len() == i,
            forall|k: int| 0 <= k < i ==> record_fields_ok(#[trigger] records@[k]),
            forall|k: int|
                0 <= k < i ==> node_reads_record(#[trigger] nodes@[k], records@[k], k as nat),
        decreases records@.len() - i,
    {
        match record_to_node(&records[i], i) {
            Some(n) => nodes.push(n),
            None => {
                return Err(LayerLoadError::BadField);
            },
        }
        i = i + 1;
    }
    match raises_unfitting_layer_error(&nodes, desired_weight_count, desired_node_count) {
        Ok(_) => {},
        Err(e) => {
            proof {
                if desired_node_count == nodes@.len() {
                    let w = choose|i: int|
                        0 <= i < nodes@.len() && (#[trigger] nodes@[i]).weights@.len()
                            != desired_weight_count;
                    assert(node_reads_record(nodes@[w], records@[w], w as nat));
                    assert(records@[w]@.len() - 1 != desired_weight_count);
                }
            }
            return Err(LayerLoadError::Unfitting(e));
        },
    }
    proof {
        assert forall|i: int| 0 <= i < records@.len() implies (#[trigger] records@[i])@.len() - 1
            == desired_weight_count by {
            assert(node_reads_record(nodes@[i], records@[i], i as nat));
            assert(nodes@[i].weights@.len() == desired_weight_count);
        }
        assert forall|i: int| 0 <= i < nodes@.len() implies node_wf(
            #[trigger] nodes@[i],
            desired_weight_count as nat,
            i as nat,
        ) by {
            assert(node_reads_record(nodes@[i], records@[i], i as nat));
        }
    }
    let node_count = nodes.len();
    Ok(Layer { nodes, node_count, learning_rate })
}

/// Writes every layer of a network as its table, in layer order.
pub fn network_to_tables(network: &Network) -> (r: Vec<Vec<Vec<Vec<u8>>>>)
    ensures
        r@.len() == network.layers@.len(),
        forall|i: int|
            0 <= i < r@.len() ==> records_of_layer(#[trigger] r@[i], network.layers@[i]),
{
    let mut tables: Vec<Vec<Vec<Vec<u8>>>> = Vec::new();
    let mut i: usize = 0;
    while i < network.layers.len()
        invariant
            0 <= i <= network.layers@.len(),
            tables@.len() == i,
            forall|k: int|
                0 <= k < i ==> records_of_layer(#[trigger] tables@[k], network.layers@[k]),
        decreases network.layers@.len() - i,
    {
        tables.push(layer_to_records(&network.layers[i]));
        i = i + 1;
    }
    tables
}

/// The table is accepted for a layer of `desired_node_count` nodes over a
/// previous layer of `desired_weight_count`: every field reads and the
/// shape fits.
pub open spec fn table_accepted(
    records: Vec<Vec<Vec<u8>>>,
    desired_weight_count: usize,
    desired_node_count: usize,
) -> bool {
    &&& all_records_ok(records)
    &&& records_shape_ok(records, desired_weight_count, desired_node_count)
}

/// Reads one table per stored layer back into a network over the declared
/// topology `network_form` (input width first, then one width per stored
/// layer).  Succeeds exactly when every table is accepted between its pair
/// of widths, and then yields a network that is well formed over the
/// topology; otherwise fails with the error of the first table refused.
pub fn tables_to_network(
    tables: &Vec<Vec<Vec<Vec<u8>>>>,
    network_form: &Vec<usize>,
    learning_rate: u32,
) -> (r: Result<Network, LayerLoadError>)
    requires
        network_form@.len() >= 2,
        tables@.len() == network_form@.len() - 1,
    ensures
        match r {
            Ok(net) => {
                &&& forall|i: int|
                    0 <= i < tables@.len() ==> table_accepted(
                        #[trigger] tables@[i],
                        network_form@[i],
                        network_form@[i + 1],
                    )
                &&& network_wf(net, network_form@)
                &&& forall|i: int|
                    0 <= i < tables@.len() ==> layer_reads_records(
                        #[trigger] net.layers@[i],
                        tables@[i],
                        learning_rate,
                    )
            },
            Err(e) => exists|i: int|
                {
                    &&& 0 <= i < tables@.len()
                    &&& !table_accepted(#[trigger] tables@[i], network_form@[i], network_form@[i
                        + 1])
                    &&& forall|k: int|
                        0 <= k < i ==> table_accepted(
                            #[trigger] tables@[k],
                            network_form@[k],
                            network_form@[k + 1],
                        )
                    &&& match e {
                        LayerLoadError::BadField => !all_records_ok(tables@[i]),
                        LayerLoadError::Unfitting(_) => all_records_ok(tables@[i])
                            && !records_shape_ok(tables@[i], network_form@[i], network_form@[i + 1]),
                    }
                },
        },
{
    let mut layers: Vec<Layer> = Vec::new();
    let mut i: usize = 0;
    while i < tables.len()
        invariant
            0 <= i <= tables@.len(),
            tables@.len() == network_form@.len() - 1,
            layers@.len() == i,
            forall|k: int|
                0 <= k < i ==> table_accepted(
                    #[trigger] tables@[k],
                    network_form@[k],
                    network_form@[k + 1],
                ),
            forall|k: int|
                0 <= k < i ==> layer_reads_records(
                    #[trigger] layers@[k],
                    tables@[k],
                    learning_rate,
                ),
            forall|k: int|
                0 <= k < i ==> layer_wf(#[trigger] layers@[k], network_form@[k] as nat),
            forall|k: int|
                0 <= k < i ==> (#[trigger] layers@[k]).nodes@.len() == network_form@[k + 1],
        decreases tables@.len() - i,
    {
        match records_to_layer(&tables[i], network_form[i], network_form[i + 1], learning_rate) {
            Ok(layer) => {
                proof {
                    assert(layer.nodes@.len() == tables@[i as int]@.len());
                    assert(records_shape_ok(
                        tables@[i as int],
                        network_form@[i as int],
                        network_form@[i as int + 1],
                    ));
                }
                layers.push(layer);
            },
            Err(e) => {
                return Err(e);
            },
        }
        i = i + 1;
    }
    let layer_count = layers.len();
    Ok(Network { layers, layer_count })
}

/// Two nodes hold the same bits.
pub open spec fn node_equiv(a: Node, b: Node) -> bool {
    &&& a.bias == b.bias
    &&& a.weights@ == b.weights@
    &&& a.personal_pos == b.personal_pos
}

/// Two layers hold the same bits, node for node.
pub open spec fn layer_equiv(a: Layer, b: Layer) -> bool {
    &&& a.node_count == b.node_count
    &&& a.learning_rate == b.learning_rate
    &&& a.nodes@.len() == b.nodes@.len()
    &&& forall|i: int| 0 <= i < a.nodes@.len() ==> node_equiv(#[trigger] a.nodes@[i], b.nodes@[i])
}

/// Two networks hold the same bits, layer for layer.  Activations are a
/// function of these bits alone, so equivalent networks compute identical
/// activation vectors on every input.
pub open spec fn network_equiv(a: Network, b: Network) -> bool {
    &&& a.layer_count == b.layer_count
    &&& a.layers@.len() == b.layers@.len()
    &&& forall|i: int| 0 <= i < a.layers@.len() ==> layer_equiv(#[trigger] a.layers@[i], b.layers@[i])
}

/// The written table of a layer always reads back: every field is the
/// decimal text of a 32-bit word, which the field check accepts.
pub proof fn lemma_layer_records_fields_ok(records: Vec<Vec<Vec<u8>>>, l: Layer)
    requires
        records_of_layer(records, l),
    ensures
        all_records_ok(records),
{
    assert forall|i: int| 0 <= i < records@.len() implies record_fields_ok(
        #[trigger] records@[i],
    ) by {
        assert(record_of_node(records@[i], l.nodes@[i]));
        lemma_dec_round_trip(l.nodes@[i].bias as nat);
        assert forall|j: int| 0 <= j < records@[i]@.len() implies field_ok(
            (#[trigger] records@[i]@[j])@,
        ) by {
            if j == 0 {
                assert(records@[i]@[0]@ == dec_of(l.nodes@[i].bias as nat));
            } else {
                lemma_dec_round_trip(l.nodes@[i].weights@[j - 1] as nat);
            }
        }
    }
}

/// The written table of a well-formed layer fits the topology it was
/// written from: reading it back with the same expected widths passes the
/// structural check.
pub proof fn lemma_layer_records_shape_ok(
    records: Vec<Vec<Vec<u8>>>,
    l: Layer,
    weight_count: nat,
)
    requires
        records_of_layer(records, l),
        layer_wf(l, weight_count),
        weight_count <= usize::MAX,
    ensures
        records_shape_ok(records, weight_count as usize, l.node_count),
{
    assert forall|i: int| 0 <= i < records@.len() implies (#[trigger] records@[i])@.len() - 1
        == weight_count as usize by {
        assert(record_of_node(records@[i], l.nodes@[i]));
        assert(node_wf(l.nodes@[i], weight_count, i as nat));
    }
}

/// Round trip, layer level: a layer read back from the written table of a
/// well-formed layer is that layer again, bit for bit.
pub proof fn lemma_layer_round_trip(
    l: Layer,
    records: Vec<Vec<Vec<u8>>>,
    l2: Layer,
    weight_count: nat,
)
    requires
        layer_wf(l, weight_count),
        records_of_layer(records, l),
        layer_reads_records(l2, records, l.learning_rate),
    ensures
        layer_equiv(l, l2),
{
    assert forall|i: int| 0 <= i < l.nodes@.len() implies node_equiv(
        #[trigger] l.nodes@[i],
        l2.nodes@[i],
    ) by {
        let n = l.nodes@[i];
        let n2 = l2.nodes@[i];
        assert(record_of_node(records@[i], n));
        assert(node_reads_record(n2, records@[i], i as nat));
        assert(node_wf(n, weight_count, i as nat));
        lemma_dec_round_trip(n.bias as nat);
        assert(n2.bias == n.bias);
        assert forall|j: int| 0 <= j < n.weights@.len() implies n.weights@[j] == n2.weights@[j] by {
            assert(records@[i]@[j + 1]@ == dec_of(n.weights@[j] as nat));
            lemma_dec_round_trip(n.weights@[j] as nat);
        }
        assert(n.weights@ =~= n2.weights@);
    }
}

/// Round trip, network level: writing every layer of a well-formed network
/// as its table and reading the tables back yields the network again, bit
/// for bit, still well formed over the same topology.  Since activations
/// are a function of the stored bits alone, the reloaded network computes
/// identical activation vectors on every input.
pub proof fn lemma_network_round_trip(
    net: Network,
    form: Seq<usize>,
    tables: Seq<Vec<Vec<Vec<u8>>>>,
    net2: Network,
)
    requires
        network_wf(net, form),
        tables.len() == net.layers@.len(),
        forall|i: int|
            0 <= i < tables.len() ==> records_of_layer(#[trigger] tables[i], net.layers@[i]),
        net2.layer_count == net2.layers@.len(),
        net2.layers@.len() == net.layers@.len(),
        forall|i: int|
            0 <= i < tables.len() ==> layer_reads_records(
                #[trigger] net2.layers@[i],
                tables[i],
                net.layers@[i].learning_rate,
            ),
    ensures
        network_equiv(net, net2),
        network_wf(net2, form),
{
    assert forall|i: int| 0 <= i < net.layers@.len() implies layer_equiv(
        #[trigger] net.layers@[i],
        net2.layers@[i],
    ) by {
        assert(layer_wf(net.layers@[i], form[i] as nat));
        lemma_layer_round_trip(net.layers@[i], tables[i], net2.layers@[i], form[i] as nat);
    }
    assert(network_equiv(net, net2));
    assert forall|i: int| 0 <= i < net.layers@.len() implies layer_same_shape(
        #[trigger] net.layers@[i],
        net2.layers@[i],
    ) by {
        assert(layer_equiv(net.layers@[i], net2.layers@[i]));
        assert forall|j: int| 0 <= j < net.layers@[i].nodes@.len() implies node_same_shape(
            #[trigger] net.layers@[i].nodes@[j],
            net2.layers@[i].nodes@[j],
        ) by {
            assert(node_equiv(net.layers@[i].nodes@[j], net2.layers@[i].nodes@[j]));
        }
    }
    assert(network_same_shape(net, net2));
    lemma_same_shape_preserves_wf(net, net2, form);
}

} // verus!
