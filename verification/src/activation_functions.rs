//! The activation library: total scalar functions over the stored
//! fixed-point scalars, and their paired derivatives.  The smooth curves
//! are realised in their standard piecewise-linear fixed-point form
//! (`sigmoid` as the hard sigmoid `x/4 + 1/2` saturated into `[0, 1]`,
//! `tanh` as the hard tanh saturated into `[-1, 1]`); each derivative is
//! taken at the activated output where the closed form permits, and at
//! the raw argument where it branches on the sign.

use vstd::prelude::*;

use crate::fixed::{HALF, SCALE, div_trunc, fix_mul, in_range, mul_spec, sat_sub, sub_spec, tdiv};

verus! {

/// What `sigmoid` returns: `x/4 + 1/2`, saturated into `[0, 1]`.
pub open spec fn sigmoid_spec(x: int) -> int {
    if x >= 2 * SCALE {
        SCALE as int
    } else if x <= -2 * (SCALE as int) {
        0
    } else {
        tdiv(x, 4) + HALF
    }
}

/// What `sigmoid_derivative` returns: `y * (1 - y)` at the activated
/// output `y`.
pub open spec fn sigmoid_derivative_spec(y: int) -> int {
    mul_spec(y, SCALE - y)
}

/// What `tanh` returns: the argument saturated into `[-1, 1]`.
pub open spec fn tanh_spec(x: int) -> int {
    if x > SCALE {
        SCALE as int
    } else if x < -(SCALE as int) {
        -(SCALE as int)
    } else {
        x
    }
}

/// What `tanh_derivative` returns: `1 - y * y` at the activated output
/// `y`, saturated.
pub open spec fn tanh_derivative_spec(y: int) -> int {
    sub_spec(SCALE as int, mul_spec(y, y))
}

/// What `relu` returns: the positive part of the argument.
pub open spec fn relu_spec(x: int) -> int {
    if x < 0 {
        0
    } else {
        x
    }
}

/// What `relu_derivative` returns: `0` below zero, `1` elsewhere.
pub open spec fn relu_derivative_spec(x: int) -> int {
    if x < 0 {
        0
    } else {
        SCALE as int
    }
}

/// What `swish` returns: `x * sigmoid(x)`.
pub open spec fn swish_spec(x: int) -> int {
    mul_spec(x, sigmoid_spec(x))
}

/// What `nop` returns: the argument unchanged.
pub open spec fn nop_spec(x: int) -> int {
    x
}

/// What `nop_derivative` returns: the constant `1`.
pub open spec fn nop_derivative_spec(x: int) -> int {
    SCALE as int
}

/// `sigmoid` always lands in `[0, 1]`, whatever its argument.
pub proof fn lemma_sigmoid_range(x: int)
    ensures
        0 <= sigmoid_spec(x) <= SCALE,
{
    if x >= 2 * SCALE {
    } else if x <= -2 * (SCALE as int) {
    } else if x >= 0 {
        vstd::arithmetic::div_mod::lemma_div_pos_is_pos(x, 4);
        vstd::arithmetic::div_mod::lemma_div_is_ordered(x, 131071, 4);
        assert(131071int / 4 == 32767);
    } else {
        vstd::arithmetic::div_mod::lemma_div_pos_is_pos(-x, 4);
        vstd::arithmetic::div_mod::lemma_div_is_ordered(-x, 131071, 4);
        assert(131071int / 4 == 32767);
    }
}

/// Every activation keeps a valid stored scalar valid.
pub proof fn lemma_eval_range(act: Activation, x: int)
    requires
        in_range(x),
    ensures
        in_range(act.eval(x)),
{
    match act {
        Activation::Sigmoid => lemma_sigmoid_range(x),
        Activation::Tanh => {},
        Activation::Relu => {},
        Activation::Nop => {},
    }
}

pub fn sigmoid(x: i64) -> (r: i64)
    requires
        in_range(x as int),
    ensures
        r == sigmoid_spec(x as int),
        0 <= r <= SCALE,
{
    if x >= 2 * SCALE {
        SCALE
    } else if x <= -2 * SCALE {
        0
    } else {
        div_trunc(x, 4) + HALF
    }
}

pub fn sigmoid_derivative(y: i64) -> (r: i64)
    requires
        in_range(y as int),
    ensures
        r == sigmoid_derivative_spec(y as int),
        in_range(r as int),
{
    fix_mul(y, SCALE - y)
}

pub fn tanh(x: i64) -> (r: i64)
    requires
        in_range(x as int),
    ensures
        r == tanh_spec(x as int),
        -SCALE <= r <= SCALE,
{
    if x > SCALE {
        SCALE
    } else if x < -SCALE {
        -SCALE
    } else {
        x
    }
}

pub fn tanh_derivative(y: i64) -> (r: i64)
    requires
        in_range(y as int),
    ensures
        r == tanh_derivative_spec(y as int),
        in_range(r as int),
{
    sat_sub(SCALE, fix_mul(y, y))
}

pub fn relu(x: i64) -> (r: i64)
    ensures
        r == relu_spec(x as int),
{
    if x < 0 {
        0
    } else {
        x
    }
}

pub fn relu_derivative(x: i64) -> (r: i64)
    ensures
        r == relu_derivative_spec(x as int),
{
    if x < 0 {
        0
    } else {
        SCALE
    }
}

pub fn swish(x: i64) -> (r: i64)
    requires
        in_range(x as int),
    ensures
        r == swish_spec(x as int),
        in_range(r as int),
{
    let s = sigmoid(x);
    fix_mul(x, s)
}

pub fn nop(x: i64) -> (r: i64)
    ensures
        r == nop_spec(x as int),
{
    x
}

pub fn nop_derivative(x: i64) -> (r: i64)
    ensures
        r == nop_derivative_spec(x as int),
{
    SCALE
}

/// The activation strategies a layer may carry, each pairing one library
/// function with its derivative.
#[derive(Clone, Copy, Debug, PartialEq, Eq, Structural)]
pub enum Activation {
    /// `sigmoid` with `sigmoid_derivative`.
    Sigmoid,
    /// `tanh` with `tanh_derivative`.
    Tanh,
    /// `relu` with `relu_derivative`.
    Relu,
    /// `nop` with `nop_derivative`: the identity activation.
    Nop,
}

impl Activation {
    /// The value of the activation function at `x`.
    pub open spec fn eval(self, x: int) -> int {
        match self {
            Activation::Sigmoid => sigmoid_spec(x),
            Activation::Tanh => tanh_spec(x),
            Activation::Relu => relu_spec(x),
            Activation::Nop => nop_spec(x),
        }
    }

    /// The value of the paired derivative at `y`.
    pub open spec fn eval_derivative(self, y: int) -> int {
        match self {
            Activation::Sigmoid => sigmoid_derivative_spec(y),
            Activation::Tanh => tanh_derivative_spec(y),
            Activation::Relu => relu_derivative_spec(y),
            Activation::Nop => nop_derivative_spec(y),
        }
    }

    /// Apply the activation function to a stored scalar.
    pub fn apply(&self, x: i64) -> (r: i64)
        requires
            in_range(x as int),
        ensures
            r == self.eval(x as int),
            in_range(r as int),
    {
        match self {
            Activation::Sigmoid => sigmoid(x),
            Activation::Tanh => tanh(x),
            Activation::Relu => relu(x),
            Activation::Nop => nop(x),
        }
    }

    /// Apply the paired derivative to a stored scalar.
    pub fn apply_derivative(&self, y: i64) -> (r: i64)
        requires
            in_range(y as int),
        ensures
            r == self.eval_derivative(y as int),
            in_range(r as int),
    {
        match self {
            Activation::Sigmoid => sigmoid_derivative(y),
            Activation::Tanh => tanh_derivative(y),
            Activation::Relu => relu_derivative(y),
            Activation::Nop => nop_derivative(y),
        }
    }
}

} // verus!
