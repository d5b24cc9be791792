//! The neuron data model: a tagged value that is an input slot, a constant
//! bias unit, a hidden unit or an output unit.  Hidden and output neurons
//! own their incoming weight vector; input and bias neurons own none.

use vstd::prelude::*;

use crate::fixed::{SCALE, in_range, ints};

verus! {

/// The four roles a neuron can play.
pub ghost enum NeuronKind {
    /// An externally supplied value.
    Input,
    /// The constant `1.0` appended to a layer.
    Bias,
    /// A weighted unit of a hidden layer.
    Hidden,
    /// A weighted unit of the output layer.
    Output,
}

/// The mathematical state of one neuron: its role, its pre-activation
/// accumulator, its activated output and its incoming weights.
pub ghost struct NeuronModel {
    pub kind: NeuronKind,
    pub iv: int,
    pub ov: int,
    pub ws: Seq<int>,
}

/// A well-formed neuron of the given role and fan-in: values in the stored
/// range, a weight vector exactly as long as the previous layer for the
/// weighted roles and absent otherwise, and the constant output on a bias.
pub open spec fn wf_neuron(n: NeuronModel, kind: NeuronKind, fanin: nat) -> bool {
    &&& n.kind == kind
    &&& in_range(n.iv)
    &&& in_range(n.ov)
    &&& (forall|i: int| 0 <= i < n.ws.len() ==> in_range(#[trigger] n.ws[i]))
    &&& match kind {
        NeuronKind::Input => n.iv == 0 && n.ws.len() == 0,
        NeuronKind::Bias => n.iv == 0 && n.ws.len() == 0 && n.ov == SCALE,
        NeuronKind::Hidden => n.ws.len() == fanin,
        NeuronKind::Output => n.ws.len() == fanin,
    }
}

/// An input slot; its value is externally supplied.
#[derive(Clone, Debug, PartialEq)]
pub struct Input {
    pub output_value: i64,
}

/// A bias unit; its output is the constant `1.0` and is never mutated by
/// propagation.
#[derive(Clone, Debug, PartialEq)]
pub struct Bias {
    pub output_value: i64,
}

/// A hidden unit with its accumulator, activated output and weights.
#[derive(Clone, Debug, PartialEq)]
pub struct Hidden {
    pub input_value: i64,
    pub output_value: i64,
    pub weights: Vec<i64>,
}

/// An output unit with its accumulator, activated output and weights.
#[derive(Clone, Debug, PartialEq)]
pub struct Output {
    pub input_value: i64,
    pub output_value: i64,
    pub weights: Vec<i64>,
}

/// One computational unit of a layer.
#[derive(Clone, Debug, PartialEq)]
pub enum Neuron {
    Input(Input),
    Bias(Bias),
    Hidden(Hidden),
    Output(Output),
}

impl View for Input {
    type V = NeuronModel;

    open spec fn view(&self) -> NeuronModel {
        NeuronModel {
            kind: NeuronKind::Input,
            iv: 0,
            ov: self.output_value as int,
            ws: Seq::empty(),
        }
    }
}

impl View for Bias {
    type V = NeuronModel;

    open spec fn view(&self) -> NeuronModel {
        NeuronModel {
            kind: NeuronKind::Bias,
            iv: 0,
            ov: self.output_value as int,
            ws: Seq::empty(),
        }
    }
}

impl View for Hidden {
    type V = NeuronModel;

    open spec fn view(&self) -> NeuronModel {
        NeuronModel {
            kind: NeuronKind::Hidden,
            iv: self.input_value as int,
            ov: self.output_value as int,
            ws: ints(self.weights@),
        }
    }
}

impl View for Output {
    type V = NeuronModel;

    open spec fn view(&self) -> NeuronModel {
        NeuronModel {
            kind: NeuronKind::Output,
            iv: self.input_value as int,
            ov: self.output_value as int,
            ws: ints(self.weights@),
        }
    }
}

impl View for Neuron {
    type V = NeuronModel;

    open spec fn view(&self) -> NeuronModel {
        match self {
            Neuron::Input(n) => n@,
            Neuron::Bias(n) => n@,
            Neuron::Hidden(n) => n@,
            Neuron::Output(n) => n@,
        }
    }
}

/// The uniform access surface of every neuron role.  Reading is total;
/// the input accumulator is writable only where one exists, and the
/// weight accessors demand a weighted role.
pub trait NeuronBase {
    /// The mathematical state of this neuron.
    spec fn model(&self) -> NeuronModel;

    /// Whether this neuron carries a writable input accumulator.
    spec fn has_input(&self) -> bool;

    /// Whether this neuron owns incoming weights.
    spec fn has_weights(&self) -> bool;

    fn get_input_value(&self) -> (r: i64)
        ensures
            r as int == self.model().iv,
    ;

    fn set_input_value(&mut self, input_value: i64)
        requires
            old(self).has_input(),
        ensures
            final(self).model() == (NeuronModel { iv: input_value as int, ..old(self).model() }),
            final(self).has_input() == old(self).has_input(),
            final(self).has_weights() == old(self).has_weights(),
    ;

    fn get_output_value(&self) -> (r: i64)
        ensures
            r as int == self.model().ov,
    ;

    fn set_output_value(&mut self, output_value: i64)
        ensures
            final(self).model() == (NeuronModel { ov: output_value as int, ..old(self).model() }),
            final(self).has_input() == old(self).has_input(),
            final(self).has_weights() == old(self).has_weights(),
    ;

    fn get_weights(&self) -> (r: &Vec<i64>)
        requires
            self.has_weights(),
        ensures
            ints(r@) == self.model().ws,
    ;

    fn get_mut_weights(&mut self) -> (r: &mut Vec<i64>)
        requires
            old(self).has_weights(),
        ensures
            ints(r@) == old(self).model().ws,
            final(self).model() == (NeuronModel { ws: ints(final(r)@), ..old(self).model() }),
            final(self).has_input() == old(self).has_input(),
            final(self).has_weights() == old(self).has_weights(),
    ;
}

impl NeuronBase for Input {
    open spec fn model(&self) -> NeuronModel {
        self@
    }

    open spec fn has_input(&self) -> bool {
        false
    }

    open spec fn has_weights(&self) -> bool {
        false
    }

    fn get_input_value(&self) -> (r: i64) {
        0
    }

    fn set_input_value(&mut self, input_value: i64) {
        proof {
            assert(false);
        }
    }

    fn get_output_value(&self) -> (r: i64) {
        self.output_value
    }

    fn set_output_value(&mut self, output_value: i64) {
        self.output_value = output_value;
    }

    fn get_weights(&self) -> (r: &Vec<i64>) {
        vstd::pervasive::unreached()
    }

    fn get_mut_weights(&mut self) -> (r: &mut Vec<i64>) {
        vstd::pervasive::unreached()
    }
}

impl NeuronBase for Bias {
    open spec fn model(&self) -> NeuronModel {
        self@
    }

    open spec fn has_input(&self) -> bool {
        false
    }

    open spec fn has_weights(&self) -> bool {
        false
    }

    fn get_input_value(&self) -> (r: i64) {
        0
    }

    fn set_input_value(&mut self, input_value: i64) {
        proof {
            assert(false);
        }
    }

    fn get_output_value(&self) -> (r: i64) {
        self.output_value
    }

    fn set_output_value(&mut self, output_value: i64) {
        self.output_value = output_value;
    }

    fn get_weights(&self) -> (r: &Vec<i64>) {
        vstd::pervasive::unreached()
    }

    fn get_mut_weights(&mut self) -> (r: &mut Vec<i64>) {
        vstd::pervasive::unreached()
    }
}

impl NeuronBase for Hidden {
    open spec fn model(&self) -> NeuronModel {
        self@
    }

    open spec fn has_input(&self) -> bool {
        true
    }

    open spec fn has_weights(&self) -> bool {
        true
    }

    fn get_input_value(&self) -> (r: i64) {
        self.input_value
    }

    fn set_input_value(&mut self, input_value: i64) {
        self.input_value = input_value;
    }

    fn get_output_value(&self) -> (r: i64) {
        self.output_value
    }

    fn set_output_value(&mut self, output_value: i64) {
        self.output_value = output_value;
    }

    fn get_weights(&self) -> (r: &Vec<i64>) {
        &self.weights
    }

    fn get_mut_weights(&mut self) -> (r: &mut Vec<i64>) {
        &mut self.weights
    }
}

impl NeuronBase for Output {
    open spec fn model(&self) -> NeuronModel {
        self@
    }

    open spec fn has_input(&self) -> bool {
        true
    }

    open spec fn has_weights(&self) -> bool {
        true
    }

    fn get_input_value(&self) -> (r: i64) {
        self.input_value
    }

    fn set_input_value(&mut self, input_value: i64) {
        self.input_value = input_value;
    }

    fn get_output_value(&self) -> (r: i64) {
        self.output_value
    }

    fn set_output_value(&mut self, output_value: i64) {
        self.output_value = output_value;
    }

    fn get_weights(&self) -> (r: &Vec<i64>) {
        &self.weights
    }

    fn get_mut_weights(&mut self) -> (r: &mut Vec<i64>) {
        &mut self.weights
    }
}

impl NeuronBase for Neuron {
    open spec fn model(&self) -> NeuronModel {
        self@
    }

    open spec fn has_input(&self) -> bool {
        self@.kind == NeuronKind::Hidden || self@.kind == NeuronKind::Output
    }

    open spec fn has_weights(&self) -> bool {
        self@.kind == NeuronKind::Hidden || self@.kind == NeuronKind::Output
    }

    fn get_input_value(&self) -> (r: i64) {
        match self {
            Neuron::Input(n) => n.get_input_value(),
            Neuron::Bias(n) => n.get_input_value(),
            Neuron::Hidden(n) => n.get_input_value(),
            Neuron::Output(n) => n.get_input_value(),
        }
    }

    fn set_input_value(&mut self, input_value: i64) {
        match self {
            Neuron::Input(_) => vstd::pervasive::unreached(),
            Neuron::Bias(_) => vstd::pervasive::unreached(),
            Neuron::Hidden(n) => n.set_input_value(input_value),
            Neuron::Output(n) => n.set_input_value(input_value),
        }
    }

    fn get_output_value(&self) -> (r: i64) {
        match self {
            Neuron::Input(n) => n.get_output_value(),
            Neuron::Bias(n) => n.get_output_value(),
            Neuron::Hidden(n) => n.get_output_value(),
            Neuron::Output(n) => n.get_output_value(),
        }
    }

    fn set_output_value(&mut self, output_value: i64) {
        match self {
            Neuron::Input(n) => n.set_output_value(output_value),
            Neuron::Bias(n) => n.set_output_value(output_value),
            Neuron::Hidden(n) => n.set_output_value(output_value),
            Neuron::Output(n) => n.set_output_value(output_value),
        }
    }

    fn get_weights(&self) -> (r: &Vec<i64>) {
        match self {
            Neuron::Input(_) => vstd::pervasive::unreached(),
            Neuron::Bias(_) => vstd::pervasive::unreached(),
            Neuron::Hidden(n) => n.get_weights(),
            Neuron::Output(n) => n.get_weights(),
        }
    }

    fn get_mut_weights(&mut self) -> (r: &mut Vec<i64>) {
        match self {
            Neuron::Input(_) => vstd::pervasive::unreached(),
            Neuron::Bias(_) => vstd::pervasive::unreached(),
            Neuron::Hidden(n) => n.get_mut_weights(),
            Neuron::Output(n) => n.get_mut_weights(),
        }
    }
}

impl Input {
    /// A fresh input slot holding `0.0`.
    pub fn new() -> (r: Input)
        ensures
            r@ == (NeuronModel { kind: NeuronKind::Input, iv: 0, ov: 0, ws: Seq::empty() }),
    {
        Input { output_value: 0 }
    }
}

impl Bias {
    /// A fresh bias unit holding the constant `1.0`.
    pub fn new() -> (r: Bias)
        ensures
            r@ == (NeuronModel { kind: NeuronKind::Bias, iv: 0, ov: SCALE as int, ws: Seq::empty() }),
    {
        Bias { output_value: SCALE }
    }
}

impl Hidden {
    /// A fresh hidden unit owning the given weights.
    pub fn new(weights: Vec<i64>) -> (r: Hidden)
        ensures
            r@ == (NeuronModel {
                kind: NeuronKind::Hidden,
                iv: 0,
                ov: 0,
                ws: ints(weights@),
            }),
    {
        Hidden { input_value: 0, output_value: 0, weights }
    }
}

impl Hidden {
    /// Redraw this unit's weights with the given strategy, keeping their
    /// count and everything else about the unit.
    pub fn init(&mut self, f: crate::weight_functions::WeightInit)
        requires
            old(self).weights@.len() <= u32::MAX,
        ensures
            final(self)@.kind == NeuronKind::Hidden,
            final(self)@.iv == old(self)@.iv,
            final(self)@.ov == old(self)@.ov,
            final(self)@.ws.len() == old(self)@.ws.len(),
            forall|i: int|
                0 <= i < final(self)@.ws.len() ==> -SCALE <= #[trigger] final(self)@.ws[i]
                    <= SCALE,
            f == crate::weight_functions::WeightInit::Zero ==> forall|i: int|
                0 <= i < final(self)@.ws.len() ==> #[trigger] final(self)@.ws[i] == 0,
    {
        let n = self.weights.len() as u32;
        self.weights = f.init(n);
        proof {
            assert forall|i: int| 0 <= i < ints(self.weights@).len() implies -SCALE
                <= #[trigger] ints(self.weights@)[i] <= SCALE by {
                assert(ints(self.weights@)[i] == self.weights@[i] as int);
            }
        }
    }
}

impl Output {
    /// A fresh output unit owning the given weights.
    pub fn new(weights: Vec<i64>) -> (r: Output)
        ensures
            r@ == (NeuronModel {
                kind: NeuronKind::Output,
                iv: 0,
                ov: 0,
                ws: ints(weights@),
            }),
    {
        Output { input_value: 0, output_value: 0, weights }
    }
}

} // verus!
