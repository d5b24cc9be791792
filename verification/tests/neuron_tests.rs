//! The neuron model: constructors, the uniform access trait, and weight
//! re-initialisation.

use neural_net::fixed::SCALE;
use neural_net::neuron::{Bias, Hidden, Input, Neuron, NeuronBase, Output};
use neural_net::weight_functions::WeightInit;

#[test]
fn neuron_new_test() {
    let i = Input::new();
    assert_eq!(i.output_value, 0);
    let b = Bias::new();
    assert_eq!(b.output_value, SCALE);
    let h = Hidden::new(vec![1, 2, 3]);
    assert_eq!((h.input_value, h.output_value), (0, 0));
    assert_eq!(h.weights, vec![1, 2, 3]);
    let o = Output::new(vec![4, 5]);
    assert_eq!((o.input_value, o.output_value), (0, 0));
    assert_eq!(o.weights, vec![4, 5]);
}

#[test]
fn neuron_accessors_test() {
    let mut n = Neuron::Hidden(Hidden::new(vec![10, 20]));
    assert_eq!(n.get_input_value(), 0);
    assert_eq!(n.get_output_value(), 0);
    n.set_input_value(123);
    n.set_output_value(456);
    assert_eq!(n.get_input_value(), 123);
    assert_eq!(n.get_output_value(), 456);
    assert_eq!(n.get_weights(), &vec![10, 20]);
    n.get_mut_weights()[1] = 99;
    assert_eq!(n.get_weights(), &vec![10, 99]);
}

#[test]
fn weightless_accessors_test() {
    let b = Neuron::Bias(Bias::new());
    assert_eq!(b.get_input_value(), 0);
    assert_eq!(b.get_output_value(), SCALE);
    let mut i = Neuron::Input(Input::new());
    i.set_output_value(77);
    assert_eq!(i.get_output_value(), 77);
    assert_eq!(i.get_input_value(), 0);
}

#[test]
fn hidden_init_test() {
    let mut h = Hidden::new(vec![5, 6, 7, 8]);
    h.input_value = 11;
    h.output_value = 22;
    h.init(WeightInit::Zero);
    assert_eq!(h.weights, vec![0, 0, 0, 0]);
    assert_eq!((h.input_value, h.output_value), (11, 22));
    h.init(WeightInit::Xavier);
    assert_eq!(h.weights.len(), 4);
    for w in &h.weights {
        assert!(-SCALE / 2 <= *w && *w <= SCALE / 2);
    }
}
