//! The activation library on concrete stored scalars.

use neural_net::activation_functions::{
    Activation, nop, nop_derivative, relu, relu_derivative, sigmoid, sigmoid_derivative, swish,
    tanh, tanh_derivative,
};
use neural_net::fixed::{HALF, SCALE};

fn fx(x: f64) -> i64 {
    (x * SCALE as f64).round() as i64
}

#[test]
fn sigmoid_test() {
    assert_eq!(sigmoid(0), HALF);
    assert!(sigmoid(fx(-6.0)) < fx(0.01), "negative x isn't converging to 0");
}

#[test]
fn sigmoid_saturates() {
    assert_eq!(sigmoid(2 * SCALE), SCALE);
    assert_eq!(sigmoid(5 * SCALE), SCALE);
    assert_eq!(sigmoid(-2 * SCALE), 0);
    assert_eq!(sigmoid(-7 * SCALE), 0);
    // interior: x/4 + 1/2
    assert_eq!(sigmoid(HALF), 8192 + HALF);
    assert_eq!(sigmoid(-HALF), -8192 + HALF);
}

#[test]
fn sigmoid_derivative_test() {
    // y (1 - y) at y = 0.5 is exactly 0.25
    assert_eq!(sigmoid_derivative(HALF), SCALE / 4);
    assert_eq!(sigmoid_derivative(0), 0);
    assert_eq!(sigmoid_derivative(SCALE), 0);
}

#[test]
fn tanh_test() {
    assert_eq!(tanh(3 * SCALE), SCALE);
    assert_eq!(tanh(-3 * SCALE), -SCALE);
    assert_eq!(tanh(1234), 1234);
    assert_eq!(tanh(-1234), -1234);
}

#[test]
fn tanh_derivative_test() {
    assert_eq!(tanh_derivative(0), SCALE);
    assert_eq!(tanh_derivative(SCALE), 0);
    assert_eq!(tanh_derivative(-SCALE), 0);
    // 1 - y*y at y = 0.5 is exactly 0.75
    assert_eq!(tanh_derivative(HALF), SCALE - SCALE / 4);
}

#[test]
fn relu_test() {
    assert_eq!(relu(-5), 0);
    assert_eq!(relu(0), 0);
    assert_eq!(relu(7), 7);
    assert_eq!(relu_derivative(-1), 0);
    assert_eq!(relu_derivative(0), SCALE);
    assert_eq!(relu_derivative(5), SCALE);
}

#[test]
fn swish_test() {
    // x * sigmoid(x) at x = 1.0: sigmoid(1.0) = 0.75, so swish = 0.75
    assert_eq!(swish(SCALE), 49152);
    assert_eq!(swish(0), 0);
    // fully saturated: sigmoid is 1, swish is x itself
    assert_eq!(swish(4 * SCALE), 4 * SCALE);
}

#[test]
fn nop_test() {
    assert_eq!(nop(42), 42);
    assert_eq!(nop(-42), -42);
    assert_eq!(nop_derivative(9), SCALE);
}

#[test]
fn activation_dispatch_test() {
    assert_eq!(Activation::Sigmoid.apply(HALF), sigmoid(HALF));
    assert_eq!(Activation::Tanh.apply(777), tanh(777));
    assert_eq!(Activation::Relu.apply(-3), relu(-3));
    assert_eq!(Activation::Nop.apply(11), nop(11));
    assert_eq!(Activation::Sigmoid.apply_derivative(HALF), sigmoid_derivative(HALF));
    assert_eq!(Activation::Tanh.apply_derivative(HALF), tanh_derivative(HALF));
    assert_eq!(Activation::Relu.apply_derivative(-3), relu_derivative(-3));
    assert_eq!(Activation::Nop.apply_derivative(0), nop_derivative(0));
}
