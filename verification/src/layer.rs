//! Layers: ordered, fixed-shape collections of neurons of one role, with
//! one activation strategy per hidden or output layer and an optional
//! trailing bias unit.  Shapes are immutable after construction; only the
//! neurons' accumulators, outputs and weight values change afterwards.

use vstd::prelude::*;

use crate::activation_functions::Activation;
use crate::fixed::{MAX_NEURONS, SCALE, in_range, ints};
use crate::neuron::{Bias, Hidden, Input, Neuron, NeuronBase, NeuronKind, NeuronModel, Output,
    wf_neuron};
use crate::weight_functions::WeightInit;

verus! {

/// The failures the engine can signal: a supplied value count or fan-in
/// that does not match the declared shape, or an out-of-range index.
#[derive(Clone, Copy, Debug, PartialEq, Eq, Structural)]
pub enum NetError {
    ConfigurationError,
    IndexError,
}

/// The mathematical states of a vector of neurons.
pub open spec fn nmodels(s: Seq<Neuron>) -> Seq<NeuronModel> {
    s.map_values(|n: Neuron| n@)
}

/// The ordered activated outputs of a sequence of neurons.
pub open spec fn ovs(ns: Seq<NeuronModel>) -> Seq<int> {
    ns.map_values(|n: NeuronModel| n.ov)
}

/// The mathematical state of one layer: its neurons in order, its
/// activation strategy and whether a trailing bias unit is appended.
pub ghost struct LayerModel {
    pub ns: Seq<NeuronModel>,
    pub act: Activation,
    pub bias: bool,
}

/// A well-formed run of neurons: all of the given role and fan-in, except
/// that the last is a bias unit when `bias` is set.
pub open spec fn wf_neurons(ns: Seq<NeuronModel>, kind: NeuronKind, bias: bool, fanin: nat) -> bool {
    &&& ns.len() <= MAX_NEURONS
    &&& (bias ==> ns.len() >= 1)
    &&& forall|i: int|
        0 <= i < ns.len() ==> wf_neuron(
            #[trigger] ns[i],
            if bias && i == ns.len() - 1 {
                NeuronKind::Bias
            } else {
                kind
            },
            fanin,
        )
}

/// A well-formed input layer: weightless input slots, identity activation.
pub open spec fn wf_input_layer(m: LayerModel) -> bool {
    &&& m.act == Activation::Nop
    &&& wf_neurons(m.ns, NeuronKind::Input, m.bias, 0)
}

/// A well-formed hidden layer whose neurons each own `fanin` weights.
pub open spec fn wf_hidden_layer(m: LayerModel, fanin: nat) -> bool {
    wf_neurons(m.ns, NeuronKind::Hidden, m.bias, fanin)
}

/// A well-formed output layer: never carries a bias unit.
pub open spec fn wf_output_layer(m: LayerModel, fanin: nat) -> bool {
    &&& !m.bias
    &&& wf_neurons(m.ns, NeuronKind::Output, false, fanin)
}

/// The fan-in a layer's weighted neurons agree on, read off its first
/// neuron; immaterial for a layer of no weighted neurons.
pub open spec fn layer_fanin(m: LayerModel) -> nat {
    if m.ns.len() == 0 {
        0
    } else {
        m.ns[0].ws.len()
    }
}

/// The capability surface every layer kind offers uniformly: its length,
/// the fan-in it imposes on the next layer, indexed neuron access, the
/// projection of its outputs, and its activation derivative.
pub trait Layer {
    /// The mathematical state of this layer.
    spec fn model(&self) -> LayerModel;

    /// Whether this layer is well formed at its own fan-in.
    spec fn wf(&self) -> bool;

    /// The neuron count, the trailing bias unit included.
    fn len(&self) -> (r: usize)
        ensures
            r == self.model().ns.len(),
    ;

    /// The weight-vector length the next layer's neurons must each have,
    /// equal to `len()`.
    fn len_weights(&self) -> (r: u32)
        requires
            self.wf(),
        ensures
            r == self.model().ns.len(),
    ;

    /// The ordered activated output of every neuron, the operand of the
    /// next layer's dot products.
    fn values_as_vector(&self) -> (r: Vec<i64>)
        ensures
            ints(r@) == ovs(self.model().ns),
    ;

    /// The neuron at `index`, or nothing when the index is out of range.
    fn get(&self, index: usize) -> (r: Option<&Neuron>)
        ensures
            match r {
                Some(n) => index < self.model().ns.len() && n@ == self.model().ns[index as int],
                None => index >= self.model().ns.len(),
            },
    ;

    /// A mutable borrow of the neuron at `index`.
    fn get_mut(&mut self, index: usize) -> (r: &mut Neuron)
        requires
            index < old(self).model().ns.len(),
        ensures
            (*r)@ == old(self).model().ns[index as int],
            final(self).model().ns.len() == old(self).model().ns.len(),
            final(self).model().ns[index as int] == final(r)@,
            forall|j: int|
                0 <= j < old(self).model().ns.len() && j != index ==> final(self).model().ns[j]
                    == old(self).model().ns[j],
            final(self).model().act == old(self).model().act,
            final(self).model().bias == old(self).model().bias,
    ;

    /// All neurons in order.
    fn get_all(&self) -> (r: &Vec<Neuron>)
        ensures
            nmodels(r@) == self.model().ns,
    ;

    /// A mutable borrow of all neurons in order.
    fn get_all_mut(&mut self) -> (r: &mut Vec<Neuron>)
        ensures
            nmodels(r@) == old(self).model().ns,
            final(self).model().ns == nmodels(final(r)@),
            final(self).model().act == old(self).model().act,
            final(self).model().bias == old(self).model().bias,
    ;

    /// The layer's activation strategy, whose paired derivative the
    /// backward pass applies; the identity pairing for an input layer.
    fn get_activation_derivation(&self) -> (r: Activation)
        ensures
            r == self.model().act,
    ;
}

/// The first layer: externally supplied values, an optional bias unit.
#[derive(Clone, Debug, PartialEq)]
pub struct InputLayer {
    pub inputs: Vec<Neuron>,
    pub has_bias: bool,
}

impl View for InputLayer {
    type V = LayerModel;

    open spec fn view(&self) -> LayerModel {
        LayerModel { ns: nmodels(self.inputs@), act: Activation::Nop, bias: self.has_bias }
    }
}

impl Layer for InputLayer {
    open spec fn model(&self) -> LayerModel {
        self@
    }

    open spec fn wf(&self) -> bool {
        wf_input_layer(self@)
    }

    fn len(&self) -> (r: usize) {
        self.inputs.len()
    }

    fn len_weights(&self) -> (r: u32) {
        self.inputs.len() as u32
    }

    fn values_as_vector(&self) -> (r: Vec<i64>) {
        values_of(&self.inputs)
    }

    fn get(&self, index: usize) -> (r: Option<&Neuron>) {
        if index < self.inputs.len() {
            Some(&self.inputs[index])
        } else {
            None
        }
    }

    fn get_mut(&mut self, index: usize) -> (r: &mut Neuron) {
        &mut self.inputs[index]
    }

    fn get_all(&self) -> (r: &Vec<Neuron>) {
        &self.inputs
    }

    fn get_all_mut(&mut self) -> (r: &mut Vec<Neuron>) {
        &mut self.inputs
    }

    fn get_activation_derivation(&self) -> (r: Activation) {
        Activation::Nop
    }
}

/// The ordered outputs of a neuron vector, as stored scalars.
pub(crate) fn values_of(ns: &Vec<Neuron>) -> (r: Vec<i64>)
    ensures
        ints(r@) == ovs(nmodels(ns@)),
{
    let mut out: Vec<i64> = Vec::new();
    let n = ns.len();
    let mut i: usize = 0;
    while i < n
        invariant
            n == ns@.len(),
            0 <= i <= n,
            out@.len() == i,
            forall|j: int| 0 <= j < i ==> #[trigger] out@[j] as int == ns@[j]@.ov,
        decreases n - i,
    {
        let v = ns[i].get_output_value();
        out.push(v);
        i = i + 1;
    }
    proof {
        assert forall|j: int| 0 <= j < out@.len() implies #[trigger] ints(out@)[j] == ovs(
            nmodels(ns@),
        )[j] by {}
        assert(ints(out@) =~= ovs(nmodels(ns@)));
    }
    out
}

impl InputLayer {
    /// A fresh input layer of `layer_size` zeroed slots, a bias unit
    /// appended when `bias` is set.
    pub fn new(layer_size: u32, bias: bool) -> (r: Self)
        requires
            layer_size + 1 <= MAX_NEURONS,
        ensures
            r.wf(),
            r@.bias == bias,
            r@.act == Activation::Nop,
            r@.ns.len() == layer_size + if bias {
                1int
            } else {
                0int
            },
            forall|i: int|
                0 <= i < layer_size ==> #[trigger] r@.ns[i] == (NeuronModel {
                    kind: NeuronKind::Input,
                    iv: 0,
                    ov: 0,
                    ws: Seq::empty(),
                }),
            bias ==> r@.ns.last() == (NeuronModel {
                kind: NeuronKind::Bias,
                iv: 0,
                ov: SCALE as int,
                ws: Seq::empty(),
            }),
    {
        let mut inputs: Vec<Neuron> = Vec::new();
        let mut i: u32 = 0;
        while i < layer_size
            invariant
                0 <= i <= layer_size,
                inputs@.len() == i,
                forall|j: int|
                    0 <= j < i ==> #[trigger] inputs@[j]@ == (NeuronModel {
                        kind: NeuronKind::Input,
                        iv: 0,
                        ov: 0,
                        ws: Seq::empty(),
                    }),
            decreases layer_size - i,
        {
            inputs.push(Neuron::Input(Input::new()));
            i = i + 1;
        }
        if bias {
            inputs.push(Neuron::Bias(Bias::new()));
        }
        let r = InputLayer { inputs, has_bias: bias };
        proof {
            assert forall|j: int| 0 <= j < r@.ns.len() implies #[trigger] r@.ns[j]
                == r.inputs@[j]@ by {}
            assert forall|j: int| 0 <= j < r@.ns.len() implies wf_neuron(
                #[trigger] r@.ns[j],
                if bias && j == r@.ns.len() - 1 {
                    NeuronKind::Bias
                } else {
                    NeuronKind::Input
                },
                0,
            ) by {}
        }
        r
    }

    /// Copy `input_values` into the matching input slots; rejected when
    /// the count does not equal the non-bias portion of the layer.
    pub fn set_inputs(&mut self, input_values: Vec<i64>) -> (r: Result<(), NetError>)
        requires
            old(self).wf(),
            forall|i: int| 0 <= i < input_values@.len() ==> in_range(input_values@[i] as int),
        ensures
            r == Ok::<(), NetError>(()) <==> input_values@.len() == old(self)@.ns.len() - (
            if old(self)@.bias {
                1int
            } else {
                0int
            }),
            match r {
                Ok(()) => {
                    &&& final(self).wf()
                    &&& final(self)@.bias == old(self)@.bias
                    &&& final(self)@.ns.len() == old(self)@.ns.len()
                    &&& forall|j: int|
                        0 <= j < input_values@.len() ==> final(self)@.ns[j] == (NeuronModel {
                            ov: input_values@[j] as int,
                            ..old(self)@.ns[j]
                        })
                    &&& forall|j: int|
                        input_values@.len() <= j < old(self)@.ns.len() ==> final(self)@.ns[j]
                            == old(self)@.ns[j]
                },
                Err(e) => e == NetError::ConfigurationError && *final(self) == *old(self),
            },
    {
        let mut c = self.inputs.len();
        if self.has_bias {
            c = c - 1;
        }
        if input_values.len() != c {
            return Err(NetError::ConfigurationError);
        }
        let ghost orig = nmodels(self.inputs@);
        let ghost has_bias = self.has_bias;
        let mut i: usize = 0;
        while i < c
            invariant
                0 <= i <= c,
                c + if has_bias {
                    1int
                } else {
                    0int
                } == orig.len(),
                self.has_bias == has_bias,
                self.inputs@.len() == orig.len(),
                input_values@.len() == c,
                forall|j: int| 0 <= j < c ==> in_range(input_values@[j] as int),
                wf_neurons(orig, NeuronKind::Input, has_bias, 0),
                forall|j: int|
                    0 <= j < i ==> #[trigger] self.inputs@[j]@ == (NeuronModel {
                        ov: input_values@[j] as int,
                        ..orig[j]
                    }),
                forall|j: int| i <= j < orig.len() ==> #[trigger] self.inputs@[j]@ == orig[j],
            decreases c - i,
        {
            let v = input_values[i];
            proof {
                assert(self.inputs@[i as int]@ == orig[i as int]);
                assert(wf_neuron(
                    orig[i as int],
                    if has_bias && i == orig.len() - 1 {
                        NeuronKind::Bias
                    } else {
                        NeuronKind::Input
                    },
                    0,
                ));
                assert(orig[i as int].kind == NeuronKind::Input);
            }
            let slot = &mut self.inputs[i];
            match slot {
                Neuron::Input(n) => {
                    n.output_value = v;
                },
                _ => {
                    proof {
                        assert(false);
                    }
                },
            }
            i = i + 1;
        }
        proof {
            let m = self@;
            assert forall|j: int| 0 <= j < m.ns.len() implies #[trigger] m.ns[j]
                == self.inputs@[j]@ by {}
            assert forall|j: int| 0 <= j < m.ns.len() implies wf_neuron(
                #[trigger] m.ns[j],
                if m.bias && j == m.ns.len() - 1 {
                    NeuronKind::Bias
                } else {
                    NeuronKind::Input
                },
                0,
            ) by {
                assert(wf_neuron(
                    orig[j],
                    if has_bias && j == orig.len() - 1 {
                        NeuronKind::Bias
                    } else {
                        NeuronKind::Input
                    },
                    0,
                ));
            }
            assert(wf_input_layer(self@));
        }
        Ok(())
    }
}

} // verus!

verus! {

/// An interior layer of weighted hidden units, an optional bias appended.
#[derive(Clone, Debug, PartialEq)]
pub struct HiddenLayer {
    pub neurons: Vec<Neuron>,
    pub activation_function: Activation,
    pub bias: bool,
}

impl View for HiddenLayer {
    type V = LayerModel;

    open spec fn view(&self) -> LayerModel {
        LayerModel { ns: nmodels(self.neurons@), act: self.activation_function, bias: self.bias }
    }
}

impl Layer for HiddenLayer {
    open spec fn model(&self) -> LayerModel {
        self@
    }

    open spec fn wf(&self) -> bool {
        wf_hidden_layer(self@, layer_fanin(self@))
    }

    fn len(&self) -> (r: usize) {
        self.neurons.len()
    }

    fn len_weights(&self) -> (r: u32) {
        self.neurons.len() as u32
    }

    fn values_as_vector(&self) -> (r: Vec<i64>) {
        values_of(&self.neurons)
    }

    fn get(&self, index: usize) -> (r: Option<&Neuron>) {
        if index < self.neurons.len() {
            Some(&self.neurons[index])
        } else {
            None
        }
    }

    fn get_mut(&mut self, index: usize) -> (r: &mut Neuron) {
        &mut self.neurons[index]
    }

    fn get_all(&self) -> (r: &Vec<Neuron>) {
        &self.neurons
    }

    fn get_all_mut(&mut self) -> (r: &mut Vec<Neuron>) {
        &mut self.neurons
    }

    fn get_activation_derivation(&self) -> (r: Activation) {
        self.activation_function
    }
}

impl HiddenLayer {
    /// A fresh hidden layer of `layer_size` units, each owning a weight
    /// vector drawn by `weight_function` and exactly as long as the
    /// previous layer; a bias unit appended when `bias` is set.
    pub fn new<L: Layer>(
        layer_size: u32,
        bias: bool,
        activation_function: Activation,
        weight_function: WeightInit,
        prev_layer: &L,
    ) -> (r: Self)
        requires
            prev_layer.wf(),
            layer_size + 1 <= MAX_NEURONS,
        ensures
            r@.act == activation_function,
            r@.bias == bias,
            r@.ns.len() == layer_size + if bias {
                1int
            } else {
                0int
            },
            forall|i: int|
                0 <= i < layer_size ==> {
                    &&& (#[trigger] r@.ns[i]).kind == NeuronKind::Hidden
                    &&& r@.ns[i].iv == 0
                    &&& r@.ns[i].ov == 0
                    &&& r@.ns[i].ws.len() == prev_layer.model().ns.len()
                    &&& forall|k: int|
                        0 <= k < r@.ns[i].ws.len() ==> -SCALE <= #[trigger] r@.ns[i].ws[k]
                            <= SCALE
                    &&& (weight_function == WeightInit::Zero ==> forall|k: int|
                        0 <= k < r@.ns[i].ws.len() ==> #[trigger] r@.ns[i].ws[k] == 0)
                },
            bias ==> r@.ns.last() == (NeuronModel {
                kind: NeuronKind::Bias,
                iv: 0,
                ov: SCALE as int,
                ws: Seq::empty(),
            }),
            wf_hidden_layer(r@, prev_layer.model().ns.len()),
    {
        let fanin = prev_layer.len_weights();
        let mut neurons: Vec<Neuron> = Vec::new();
        let mut i: u32 = 0;
        while i < layer_size
            invariant
                0 <= i <= layer_size,
                neurons@.len() == i,
                fanin == prev_layer.model().ns.len(),
                forall|j: int|
                    0 <= j < i ==> {
                        &&& (#[trigger] neurons@[j]@).kind == NeuronKind::Hidden
                        &&& neurons@[j]@.iv == 0
                        &&& neurons@[j]@.ov == 0
                        &&& neurons@[j]@.ws.len() == fanin
                        &&& forall|k: int|
                            0 <= k < neurons@[j]@.ws.len() ==> -SCALE
                                <= #[trigger] neurons@[j]@.ws[k] <= SCALE
                        &&& (weight_function == WeightInit::Zero ==> forall|k: int|
                            0 <= k < neurons@[j]@.ws.len() ==> #[trigger] neurons@[j]@.ws[k]
                                == 0)
                    },
            decreases layer_size - i,
        {
            let ws = weight_function.init(fanin);
            proof {
                assert forall|k: int| 0 <= k < ws@.len() implies -SCALE <= #[trigger] ints(
                    ws@,
                )[k] <= SCALE by {}
                assert forall|k: int|
                    0 <= k < ws@.len() && weight_function == WeightInit::Zero implies #[trigger] ints(
                    ws@,
                )[k] == 0 by {}
            }
            neurons.push(Neuron::Hidden(Hidden::new(ws)));
            i = i + 1;
        }
        if bias {
            neurons.push(Neuron::Bias(Bias::new()));
        }
        let r = HiddenLayer { neurons, activation_function, bias };
        proof {
            assert forall|j: int| 0 <= j < r@.ns.len() implies #[trigger] r@.ns[j]
                == r.neurons@[j]@ by {}
            assert forall|j: int| 0 <= j < r@.ns.len() implies wf_neuron(
                #[trigger] r@.ns[j],
                if bias && j == r@.ns.len() - 1 {
                    NeuronKind::Bias
                } else {
                    NeuronKind::Hidden
                },
                prev_layer.model().ns.len(),
            ) by {}
        }
        r
    }
}

/// The final layer of weighted output units; never carries a bias unit.
#[derive(Clone, Debug, PartialEq)]
pub struct OutputLayer {
    pub outputs: Vec<Neuron>,
    pub activation_function: Activation,
}

impl View for OutputLayer {
    type V = LayerModel;

    open spec fn view(&self) -> LayerModel {
        LayerModel { ns: nmodels(self.outputs@), act: self.activation_function, bias: false }
    }
}

impl Layer for OutputLayer {
    open spec fn model(&self) -> LayerModel {
        self@
    }

    open spec fn wf(&self) -> bool {
        wf_output_layer(self@, layer_fanin(self@))
    }

    fn len(&self) -> (r: usize) {
        self.outputs.len()
    }

    fn len_weights(&self) -> (r: u32) {
        self.outputs.len() as u32
    }

    fn values_as_vector(&self) -> (r: Vec<i64>) {
        values_of(&self.outputs)
    }

    fn get(&self, index: usize) -> (r: Option<&Neuron>) {
        if index < self.outputs.len() {
            Some(&self.outputs[index])
        } else {
            None
        }
    }

    fn get_mut(&mut self, index: usize) -> (r: &mut Neuron) {
        &mut self.outputs[index]
    }

    fn get_all(&self) -> (r: &Vec<Neuron>) {
        &self.outputs
    }

    fn get_all_mut(&mut self) -> (r: &mut Vec<Neuron>) {
        &mut self.outputs
    }

    fn get_activation_derivation(&self) -> (r: Activation) {
        self.activation_function
    }
}

impl OutputLayer {
    /// A fresh output layer of `layer_size` units, each owning a weight
    /// vector drawn by `weight_function` and exactly as long as the
    /// previous layer.
    pub fn new<L: Layer>(
        layer_size: u32,
        activation_function: Activation,
        weight_function: WeightInit,
        prev_layer: &L,
    ) -> (r: Self)
        requires
            prev_layer.wf(),
            layer_size <= MAX_NEURONS,
        ensures
            r@.act == activation_function,
            r@.bias == false,
            r@.ns.len() == layer_size,
            forall|i: int|
                0 <= i < layer_size ==> {
                    &&& (#[trigger] r@.ns[i]).kind == NeuronKind::Output
                    &&& r@.ns[i].iv == 0
                    &&& r@.ns[i].ov == 0
                    &&& r@.ns[i].ws.len() == prev_layer.model().ns.len()
                    &&& forall|k: int|
                        0 <= k < r@.ns[i].ws.len() ==> -SCALE <= #[trigger] r@.ns[i].ws[k]
                            <= SCALE
                    &&& (weight_function == WeightInit::Zero ==> forall|k: int|
                        0 <= k < r@.ns[i].ws.len() ==> #[trigger] r@.ns[i].ws[k] == 0)
                },
            wf_output_layer(r@, prev_layer.model().ns.len()),
    {
        let fanin = prev_layer.len_weights();
        let mut outputs: Vec<Neuron> = Vec::new();
        let mut i: u32 = 0;
        while i < layer_size
            invariant
                0 <= i <= layer_size,
                outputs@.len() == i,
                fanin == prev_layer.model().ns.len(),
                forall|j: int|
                    0 <= j < i ==> {
                        &&& (#[trigger] outputs@[j]@).kind == NeuronKind::Output
                        &&& outputs@[j]@.iv == 0
                        &&& outputs@[j]@.ov == 0
                        &&& outputs@[j]@.ws.len() == fanin
                        &&& forall|k: int|
                            0 <= k < outputs@[j]@.ws.len() ==> -SCALE
                                <= #[trigger] outputs@[j]@.ws[k] <= SCALE
                        &&& (weight_function == WeightInit::Zero ==> forall|k: int|
                            0 <= k < outputs@[j]@.ws.len() ==> #[trigger] outputs@[j]@.ws[k]
                                == 0)
                    },
            decreases layer_size - i,
        {
            let ws = weight_function.init(fanin);
            proof {
                assert forall|k: int| 0 <= k < ws@.len() implies -SCALE <= #[trigger] ints(
                    ws@,
                )[k] <= SCALE by {}
                assert forall|k: int|
                    0 <= k < ws@.len() && weight_function == WeightInit::Zero implies #[trigger] ints(
                    ws@,
                )[k] == 0 by {}
            }
            outputs.push(Neuron::Output(Output::new(ws)));
            i = i + 1;
        }
        let r = OutputLayer { outputs, activation_function };
        proof {
            assert forall|j: int| 0 <= j < r@.ns.len() implies #[trigger] r@.ns[j]
                == r.outputs@[j]@ by {}
            assert forall|j: int| 0 <= j < r@.ns.len() implies wf_neuron(
                #[trigger] r@.ns[j],
                NeuronKind::Output,
                prev_layer.model().ns.len(),
            ) by {}
        }
        r
    }
}

} // verus!
