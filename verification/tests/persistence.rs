use neural_net::inout::{
    layer_to_records, network_to_tables, node_to_record, raises_unfitting_layer_error,
    record_to_node, records_to_layer, tables_to_network, LayerLoadError, UnfittingLayerError,
};
use neural_net::nodes_layers::{Layer, Network, Node};

fn node(bias: f32, weights: &[f32], pos: usize) -> Node {
    Node {
        bias: bias.to_bits(),
        weights: weights.iter().map(|w| w.to_bits()).collect(),
        personal_pos: pos,
    }
}

fn layer(rate: f32, nodes: Vec<Node>) -> Layer {
    let node_count = nodes.len();
    Layer { nodes, node_count, learning_rate: rate.to_bits() }
}

fn sample_network() -> Network {
    // Topology [3, 2, 2]: two stored layers over three raw inputs.
    let first = layer(
        0.1,
        vec![node(0.25, &[-0.5, 0.75, 0.125], 0), node(-1.5, &[0.0625, -0.875, 1.0], 1)],
    );
    let second = layer(0.1, vec![node(0.5, &[-0.25, 0.3125], 0), node(-0.75, &[2.0, -1.25], 1)]);
    Network { layers: vec![first, second], layer_count: 2 }
}

#[test]
fn node_record_is_bias_then_weights_as_decimal_bit_patterns() {
    let n = node(1.5, &[-0.25, 0.75], 0);
    let record = node_to_record(&n);
    assert_eq!(record.len(), 3);
    assert_eq!(record[0], 1.5f32.to_bits().to_string().into_bytes());
    assert_eq!(record[1], (-0.25f32).to_bits().to_string().into_bytes());
    assert_eq!(record[2], 0.75f32.to_bits().to_string().into_bytes());
}

#[test]
fn record_reads_back_into_the_same_node() {
    let n = node(-0.125, &[0.5, -2.5, 3.0], 4);
    let back = record_to_node(&node_to_record(&n), 4).expect("a written record must read back");
    assert_eq!(back.bias, n.bias);
    assert_eq!(back.weights, n.weights);
    assert_eq!(back.personal_pos, 4);
}

#[test]
fn record_to_node_rejects_empty_record() {
    assert!(record_to_node(&Vec::new(), 0).is_none());
}

#[test]
fn record_to_node_rejects_unreadable_field() {
    let record = vec![b"1065353216".to_vec(), b"not a number".to_vec()];
    assert!(record_to_node(&record, 0).is_none());
}

#[test]
fn layer_round_trips_bit_for_bit() {
    let l = layer(0.5, vec![node(0.1, &[0.2, 0.3], 0), node(-0.4, &[0.5, -0.6], 1)]);
    let records = layer_to_records(&l);
    let back = records_to_layer(&records, 2, 2, l.learning_rate)
        .unwrap_or_else(|_| panic!("a written table must read back"));
    assert_eq!(back.node_count, l.node_count);
    assert_eq!(back.learning_rate, l.learning_rate);
    for (a, b) in l.nodes.iter().zip(back.nodes.iter()) {
        assert_eq!(a.bias, b.bias);
        assert_eq!(a.weights, b.weights);
        assert_eq!(a.personal_pos, b.personal_pos);
    }
}

#[test]
fn records_to_layer_reports_a_bad_field() {
    let mut records = layer_to_records(&layer(0.5, vec![node(0.1, &[0.2], 0)]));
    records[0][1] = b"12x".to_vec();
    match records_to_layer(&records, 1, 1, 0) {
        Err(LayerLoadError::BadField) => {},
        _ => panic!("a corrupted field must be reported"),
    }
}

#[test]
fn records_to_layer_reports_a_wrong_node_count() {
    let records = layer_to_records(&layer(0.5, vec![node(0.1, &[0.2], 0)]));
    match records_to_layer(&records, 1, 2, 0) {
        Err(LayerLoadError::Unfitting(e)) => {
            assert_eq!(e.message(), "the layer does not hold the expected number of nodes");
        },
        _ => panic!("a missing node must be reported as a structural mismatch"),
    }
}

#[test]
fn records_to_layer_reports_a_wrong_weight_count() {
    let records = layer_to_records(&layer(0.5, vec![node(0.1, &[0.2, 0.3], 0)]));
    match records_to_layer(&records, 3, 1, 0) {
        Err(LayerLoadError::Unfitting(e)) => {
            assert_eq!(e.message(), "the layer's nodes do not hold the expected number of weights");
        },
        _ => panic!("a short weight row must be reported as a structural mismatch"),
    }
}

#[test]
fn unfitting_layer_error_keeps_its_description() {
    let e = UnfittingLayerError::new("something does not fit");
    assert_eq!(e.message(), "something does not fit");
}

#[test]
fn raises_unfitting_layer_error_accepts_a_fitting_layer() {
    let nodes = vec![node(0.0, &[0.1, 0.2], 0), node(0.0, &[0.3, 0.4], 1)];
    assert!(raises_unfitting_layer_error(&nodes, 2, 2).is_ok());
    assert!(raises_unfitting_layer_error(&Vec::new(), 7, 0).is_ok());
}

#[test]
fn raises_unfitting_layer_error_rejects_a_wrong_node_count() {
    let nodes = vec![node(0.0, &[0.1], 0)];
    let e = raises_unfitting_layer_error(&nodes, 1, 2).expect_err("one node is not two");
    assert_eq!(e.message(), "the layer does not hold the expected number of nodes");
}

#[test]
fn raises_unfitting_layer_error_checks_every_node() {
    let nodes = vec![node(0.0, &[0.1, 0.2], 0), node(0.0, &[0.3], 1)];
    let e = raises_unfitting_layer_error(&nodes, 2, 2).expect_err("the second node is short");
    assert_eq!(e.message(), "the layer's nodes do not hold the expected number of weights");
}

#[test]
fn network_round_trips_bit_for_bit() {
    let net = sample_network();
    let tables = network_to_tables(&net);
    assert_eq!(tables.len(), 2);
    let form = vec![3usize, 2, 2];
    let back = tables_to_network(&tables, &form, net.layers[0].learning_rate)
        .unwrap_or_else(|_| panic!("a written network must read back"));
    assert_eq!(back.layer_count, net.layer_count);
    for (la, lb) in net.layers.iter().zip(back.layers.iter()) {
        assert_eq!(la.node_count, lb.node_count);
        assert_eq!(la.learning_rate, lb.learning_rate);
        for (a, b) in la.nodes.iter().zip(lb.nodes.iter()) {
            assert_eq!(a.bias, b.bias);
            assert_eq!(a.weights, b.weights);
            assert_eq!(a.personal_pos, b.personal_pos);
        }
    }
}

#[test]
fn tables_to_network_reports_the_first_failing_table() {
    let net = sample_network();
    let mut tables = network_to_tables(&net);
    // Corrupt a field of the first table and shrink the second: the field
    // must be reported, since the first table is read first.
    tables[0][0][0] = b"?".to_vec();
    tables[1].pop();
    let form = vec![3usize, 2, 2];
    match tables_to_network(&tables, &form, 0) {
        Err(LayerLoadError::BadField) => {},
        _ => panic!("the first table's failure must win"),
    }
}

#[test]
fn tables_to_network_rejects_a_table_that_does_not_fit_the_topology() {
    let net = sample_network();
    let tables = network_to_tables(&net);
    let form = vec![3usize, 2, 3];
    match tables_to_network(&tables, &form, 0) {
        Err(LayerLoadError::Unfitting(e)) => {
            assert_eq!(e.message(), "the layer does not hold the expected number of nodes");
        },
        _ => panic!("a topology mismatch must be reported"),
    }
}
