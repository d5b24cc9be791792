//! Layer construction, uniform access, and the fan-in rule.

use neural_net::activation_functions::Activation;
use neural_net::fixed::SCALE;
use neural_net::layer::{HiddenLayer, InputLayer, Layer, NetError, OutputLayer};
use neural_net::neuron::{Neuron, NeuronBase};
use neural_net::weight_functions::{WeightInit, xavier_init, zero_init};

#[test]
fn input_layer_test() {
    let l = InputLayer::new(2, true);
    assert_eq!(l.len(), 3);
    assert_eq!(l.len_weights(), 3);
    assert_eq!(l.values_as_vector(), vec![0, 0, SCALE]);
    let l2 = InputLayer::new(4, false);
    assert_eq!(l2.len(), 4);
    assert_eq!(l2.values_as_vector(), vec![0, 0, 0, 0]);
}

#[test]
fn set_inputs_test() {
    let mut l = InputLayer::new(2, true);
    assert_eq!(l.set_inputs(vec![7, -9]), Ok(()));
    assert_eq!(l.values_as_vector(), vec![7, -9, SCALE]);
}

#[test]
fn set_inputs_wrong_count_test() {
    let mut l = InputLayer::new(2, true);
    // the bias slot is not writable: three values do not fit two inputs
    assert_eq!(l.set_inputs(vec![1, 2, 3]), Err(NetError::ConfigurationError));
    assert_eq!(l.set_inputs(vec![1]), Err(NetError::ConfigurationError));
    assert_eq!(l.values_as_vector(), vec![0, 0, SCALE]);
}

#[test]
fn layer_test() {
    // every neuron of a hidden layer gets one weight per neuron of the
    // previous layer, its bias unit included
    let input = InputLayer::new(2, true);
    let a = HiddenLayer::new(5, true, Activation::Sigmoid, WeightInit::Xavier, &input);
    assert_eq!(a.len(), 6);
    assert_eq!(a.len_weights(), 6);
    for i in 0..5 {
        match &a.neurons[i] {
            Neuron::Hidden(h) => assert_eq!(h.weights.len(), 3),
            _ => panic!("expected a hidden neuron"),
        }
    }
    match &a.neurons[5] {
        Neuron::Bias(b) => assert_eq!(b.output_value, SCALE),
        _ => panic!("expected the bias unit last"),
    }
}

#[test]
fn output_layer_test() {
    let input = InputLayer::new(3, false);
    let o = OutputLayer::new(2, Activation::Nop, WeightInit::Zero, &input);
    assert_eq!(o.len(), 2);
    for i in 0..2 {
        match &o.outputs[i] {
            Neuron::Output(n) => assert_eq!(n.weights, vec![0, 0, 0]),
            _ => panic!("expected an output neuron"),
        }
    }
}

#[test]
fn layer_get_test() {
    let input = InputLayer::new(2, true);
    assert!(input.get(0).is_some());
    assert!(input.get(2).is_some());
    assert!(input.get(3).is_none());
    match input.get(2) {
        Some(Neuron::Bias(b)) => assert_eq!(b.output_value, SCALE),
        _ => panic!("expected the bias unit at the end"),
    }
    assert_eq!(input.get_all().len(), 3);
}

#[test]
fn layer_get_mut_test() {
    let mut input = InputLayer::new(2, false);
    input.get_mut(1).set_output_value(55);
    assert_eq!(input.values_as_vector(), vec![0, 55]);
}

#[test]
fn activation_derivation_accessor_test() {
    let input = InputLayer::new(2, false);
    assert_eq!(input.get_activation_derivation(), Activation::Nop);
    let h = HiddenLayer::new(1, false, Activation::Tanh, WeightInit::Zero, &input);
    assert_eq!(h.get_activation_derivation(), Activation::Tanh);
    let o = OutputLayer::new(1, Activation::Relu, WeightInit::Zero, &h);
    assert_eq!(o.get_activation_derivation(), Activation::Relu);
}

#[test]
fn zero_init_test() {
    assert_eq!(zero_init(0), Vec::<i64>::new());
    assert_eq!(zero_init(4), vec![0, 0, 0, 0]);
}

#[test]
fn xavier_init_test() {
    assert_eq!(xavier_init(0).len(), 0);
    // fan-in 4: every sample lies within 1/sqrt(4) = 0.5
    for _ in 0..20 {
        let ws = xavier_init(4);
        assert_eq!(ws.len(), 4);
        for w in ws {
            assert!(-SCALE / 2 <= w && w <= SCALE / 2);
        }
    }
    // fan-in 1: the interval is all of [-1, 1]
    let ws = xavier_init(1);
    assert_eq!(ws.len(), 1);
    assert!(-SCALE <= ws[0] && ws[0] <= SCALE);
}

#[test]
fn weight_init_dispatch_test() {
    assert_eq!(WeightInit::Zero.init(3), vec![0, 0, 0]);
    assert_eq!(WeightInit::Xavier.init(5).len(), 5);
}
