//! The network pipeline: the pre-flight check, both propagation passes on
//! exact fixed-point values, the error formula, and an end-to-end
//! training scenario.

use neural_net::activation_functions::Activation;
use neural_net::fixed::SCALE;
use neural_net::layer::{HiddenLayer, InputLayer, NetError, OutputLayer};
use neural_net::network::Network;
use neural_net::neuron::{Bias, Hidden, Neuron, Output};
use neural_net::weight_functions::WeightInit;

fn hidden(ws: Vec<i64>) -> Neuron {
    Neuron::Hidden(Hidden { input_value: 0, output_value: 0, weights: ws })
}

fn output(ws: Vec<i64>) -> Neuron {
    Neuron::Output(Output { input_value: 0, output_value: 0, weights: ws })
}

/// A 2-2-2-1 network with fixed weights: two sigmoid hidden layers and an
/// identity output (the stored scalars are the real weights times 2^16).
fn setup() -> Network {
    let input_layer = InputLayer::new(2, false);
    let mut hidden_a =
        HiddenLayer::new(2, false, Activation::Sigmoid, WeightInit::Zero, &input_layer);
    hidden_a.neurons = vec![hidden(vec![-19661, -26870]), hidden(vec![8520, 20316])];
    let mut hidden_ab =
        HiddenLayer::new(2, false, Activation::Sigmoid, WeightInit::Zero, &hidden_a);
    hidden_ab.neurons = vec![hidden(vec![7209, 13763]), hidden(vec![-7864, -5243])];
    let mut out = OutputLayer::new(1, Activation::Nop, WeightInit::Zero, &hidden_ab);
    out.outputs = vec![output(vec![-852, 1311])];
    Network::new(input_layer, vec![hidden_a, hidden_ab], out).unwrap()
}

fn hidden_state(net: &Network, k: usize, i: usize) -> (i64, i64, Vec<i64>) {
    match &net.hidden_layer[k].neurons[i] {
        Neuron::Hidden(h) => (h.input_value, h.output_value, h.weights.clone()),
        _ => panic!("expected a hidden neuron"),
    }
}

fn output_state(net: &Network, i: usize) -> (i64, i64, Vec<i64>) {
    match &net.output_layer.outputs[i] {
        Neuron::Output(o) => (o.input_value, o.output_value, o.weights.clone()),
        _ => panic!("expected an output neuron"),
    }
}

#[test]
fn network_feed_forward_test() {
    let mut net = setup();
    net.input_layer.set_inputs(vec![2 * SCALE, 3 * SCALE]).unwrap();
    net.forward_pass();
    assert_eq!(hidden_state(&net, 0, 0), (-119932, 2785, vec![-19661, -26870]));
    assert_eq!(hidden_state(&net, 0, 1), (77988, 52265, vec![8520, 20316]));
    assert_eq!(hidden_state(&net, 1, 0), (11282, 35588, vec![7209, 13763]));
    assert_eq!(hidden_state(&net, 1, 1), (-4515, 31640, vec![-7864, -5243]));
    assert_eq!(output_state(&net, 0), (170, 170, vec![-852, 1311]));
    assert_eq!(net.get_output(0), Ok(170));
}

#[test]
fn forward_pass_idempotent_test() {
    let mut net = setup();
    net.input_layer.set_inputs(vec![2 * SCALE, 3 * SCALE]).unwrap();
    net.forward_pass();
    let once = net.clone();
    net.forward_pass();
    assert_eq!(net, once);
}

#[test]
fn calc_error_test() {
    let mut net = setup();
    // output 0.191 (12517 units) against expected 1.0:
    // 0.5 * (0.191 - 1.0)^2 is 21446 units, about 0.32724
    net.output_layer.outputs = vec![output(vec![-852, 1311])];
    match &mut net.output_layer.outputs[0] {
        Neuron::Output(o) => o.output_value = 12517,
        _ => unreachable!(),
    }
    assert_eq!(net.calc_total_error(vec![SCALE]), 21446);
}

#[test]
fn network_backward_pass_test() {
    let mut net = setup();
    net.input_layer.set_inputs(vec![SCALE / 2, SCALE / 2]).unwrap();
    net.forward_pass();
    let before = net.calc_total_error(vec![SCALE]);
    let err = net.backward_pass(vec![SCALE], 6554);
    // the returned error is the pre-update total error
    assert_eq!(err, before);
    assert_eq!(err, 32604);
    // gradient steps on the output and last hidden layer, exact
    assert_eq!(output_state(&net, 0).2, vec![2680, 4426]);
    assert_eq!(hidden_state(&net, 1, 0).2, vec![7201, 13752]);
    assert_eq!(hidden_state(&net, 1, 1).2, vec![-7851, -5226]);
    // this deep in the net the update truncates to nothing
    assert_eq!(hidden_state(&net, 0, 0).2, vec![-19661, -26870]);
    assert_eq!(hidden_state(&net, 0, 1).2, vec![8520, 20316]);
    // outputs themselves are untouched by the backward pass
    assert_eq!(output_state(&net, 0).1, output_state(&setup_after_forward(), 0).1);
}

fn setup_after_forward() -> Network {
    let mut net = setup();
    net.input_layer.set_inputs(vec![SCALE / 2, SCALE / 2]).unwrap();
    net.forward_pass();
    net
}

#[test]
fn gradient_descent_direction_test() {
    // one backward step with a non-zero error moves the next forward
    // pass strictly closer to the target
    let mut net = setup();
    net.input_layer.set_inputs(vec![SCALE / 2, SCALE / 2]).unwrap();
    net.forward_pass();
    let e0 = net.calc_total_error(vec![SCALE]);
    assert!(e0 > 0);
    net.backward_pass(vec![SCALE], 6554);
    net.forward_pass();
    let e1 = net.calc_total_error(vec![SCALE]);
    assert!(e1 < e0, "error must strictly decrease: {} -> {}", e0, e1);
    assert_eq!((e0, e1), (32604, 29307));
}

#[test]
fn network_config_error_test() {
    // a hidden layer assembled against the wrong previous width must be
    // rejected before any propagation
    let input_layer = InputLayer::new(2, false);
    let mut hidden_a =
        HiddenLayer::new(2, false, Activation::Sigmoid, WeightInit::Zero, &input_layer);
    hidden_a.neurons = vec![hidden(vec![1, 2, 3]), hidden(vec![4, 5])];
    let out = OutputLayer::new(1, Activation::Nop, WeightInit::Zero, &hidden_a);
    match Network::new(input_layer, vec![hidden_a], out) {
        Err(e) => assert_eq!(e, NetError::ConfigurationError),
        Ok(_) => panic!("a mismatched fan-in must not assemble"),
    }
}

#[test]
fn network_no_hidden_error_test() {
    let input_layer = InputLayer::new(2, false);
    let out = OutputLayer::new(1, Activation::Nop, WeightInit::Zero, &input_layer);
    assert!(Network::new(input_layer, vec![], out).is_err());
}

#[test]
fn get_output_index_error_test() {
    let net = setup();
    assert_eq!(net.get_output(0), Ok(0));
    assert_eq!(net.get_output(1), Err(NetError::IndexError));
    assert_eq!(net.get_output(99), Err(NetError::IndexError));
}

/// A 2-input network with bias units, one hidden sigmoid layer of two
/// units, and one identity output, with fixed symmetric-breaking weights.
fn xor_net() -> Network {
    let input_layer = InputLayer::new(2, true);
    let mut ha = HiddenLayer::new(2, true, Activation::Sigmoid, WeightInit::Zero, &input_layer);
    ha.neurons = vec![
        hidden(vec![32768, -26214, 19661]),
        hidden(vec![-39322, 29491, 13107]),
        Neuron::Bias(Bias { output_value: SCALE }),
    ];
    let mut out = OutputLayer::new(1, Activation::Nop, WeightInit::Zero, &ha);
    out.outputs = vec![output(vec![36045, -22938, 9830])];
    Network::new(input_layer, vec![ha], out).unwrap()
}

#[test]
fn network_training_test() {
    // XOR-style scenario: equal signs map to 1.0, opposite signs to 0.0;
    // training must drive the summed error under 0.01
    let data: [(i64, i64, i64); 4] = [
        (SCALE, -SCALE / 2, -SCALE / 2),
        (0, SCALE / 2, -SCALE / 2),
        (0, -SCALE / 2, SCALE / 2),
        (SCALE, SCALE / 2, SCALE / 2),
    ];
    let mut net = xor_net();
    let lr = 6554;
    for _ in 0..5000 {
        for (target, a, b) in data {
            net.input_layer.set_inputs(vec![a, b]).unwrap();
            net.forward_pass();
            net.backward_pass(vec![target], lr);
        }
    }
    let mut total: i64 = 0;
    for (target, a, b) in data {
        net.input_layer.set_inputs(vec![a, b]).unwrap();
        net.forward_pass();
        total += net.calc_total_error(vec![target]);
    }
    assert!(total < 655, "training did not converge: residual error {}", total);
}

#[test]
fn bias_invariant_test() {
    // the bias units' outputs stay exactly 1.0 through any number of
    // propagation steps
    let mut net = xor_net();
    for step in 0..50 {
        net.input_layer.set_inputs(vec![SCALE / 2, -SCALE / 2]).unwrap();
        net.forward_pass();
        net.backward_pass(vec![SCALE], 6554);
        match &net.input_layer.inputs[2] {
            Neuron::Bias(b) => assert_eq!(b.output_value, SCALE, "step {}", step),
            _ => panic!("expected the input bias unit"),
        }
        match &net.hidden_layer[0].neurons[2] {
            Neuron::Bias(b) => assert_eq!(b.output_value, SCALE, "step {}", step),
            _ => panic!("expected the hidden bias unit"),
        }
    }
}
