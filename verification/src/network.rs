//! The network: one input layer, a non-empty run of hidden layers and one
//! output layer, with forward propagation, backpropagation and total-error
//! computation over that pipeline.

use vstd::prelude::*;

use crate::activation_functions::Activation;
use crate::fixed::{MAX_NEURONS, SCALE, VMAX, add_spec, dot, dot_spec, fix_mul, half_sq,
    half_square, in_range, ints, mul_spec, sat_add, sat_sub, sub_spec};
use crate::layer::{HiddenLayer, InputLayer, Layer, LayerModel, NetError, OutputLayer, nmodels,
    ovs, values_of, wf_hidden_layer, wf_input_layer, wf_neurons, wf_output_layer};
use crate::neuron::{Bias, Hidden, Input, Neuron, NeuronBase, NeuronKind, NeuronModel, Output,
    wf_neuron};

verus! {

/// The mathematical states of a vector of hidden layers.
pub open spec fn hmodels(s: Seq<HiddenLayer>) -> Seq<LayerModel> {
    s.map_values(|l: HiddenLayer| l@)
}

/// The mathematical state of a whole network.
pub ghost struct NetModel {
    pub input: LayerModel,
    pub hidden: Seq<LayerModel>,
    pub output: LayerModel,
}

/// The fan-in that layer `k` of the hidden run imposes on its neurons:
/// the width of the layer before it.
pub open spec fn fanin_at(m: NetModel, k: int) -> nat {
    if k == 0 {
        m.input.ns.len()
    } else {
        m.hidden[k - 1].ns.len()
    }
}

/// A well-formed network: a well-formed input layer, at least one hidden
/// layer, and every weighted layer's fan-in equal to the width of the
/// layer before it.
pub open spec fn wf_net(m: NetModel) -> bool {
    &&& wf_input_layer(m.input)
    &&& m.hidden.len() >= 1
    &&& forall|k: int|
        0 <= k < m.hidden.len() ==> wf_hidden_layer(#[trigger] m.hidden[k], fanin_at(m, k))
    &&& wf_output_layer(m.output, m.hidden.last().ns.len())
}

/// The summed error of the first `j` output neurons against `expected`:
/// half the squared difference each, accumulated with saturation.
pub open spec fn total_err(os: Seq<int>, expected: Seq<int>, j: int) -> int
    decreases j,
{
    if j <= 0 {
        0
    } else {
        add_spec(total_err(os, expected, j - 1), half_sq(os[j - 1] - expected[j - 1]))
    }
}

/// The ordered pipeline that the propagation passes walk.
#[derive(Clone, Debug, PartialEq)]
pub struct Network {
    pub input_layer: InputLayer,
    pub hidden_layer: Vec<HiddenLayer>,
    pub output_layer: OutputLayer,
}

impl View for Network {
    type V = NetModel;

    open spec fn view(&self) -> NetModel {
        NetModel {
            input: self.input_layer@,
            hidden: hmodels(self.hidden_layer@),
            output: self.output_layer@,
        }
    }
}

/// Whether every entry of a weight vector lies in the stored range.
fn weights_in_range(ws: &Vec<i64>) -> (r: bool)
    ensures
        r == forall|k: int| 0 <= k < ints(ws@).len() ==> in_range(#[trigger] ints(ws@)[k]),
{
    let n = ws.len();
    let mut i: usize = 0;
    while i < n
        invariant
            n == ws@.len(),
            0 <= i <= n,
            forall|k: int| 0 <= k < i ==> in_range(#[trigger] ints(ws@)[k]),
        decreases n - i,
    {
        let w = ws[i];
        if w < -VMAX || w > VMAX {
            proof {
                assert(!in_range(ints(ws@)[i as int]));
            }
            return false;
        }
        proof {
            assert(in_range(ints(ws@)[i as int]));
        }
        i = i + 1;
    }
    true
}

/// Whether a neuron vector is a well-formed run of input slots, with a
/// bias unit last when `bias` is set.
fn check_input_run(ns: &Vec<Neuron>, bias: bool) -> (r: bool)
    ensures
        r == wf_neurons(nmodels(ns@), NeuronKind::Input, bias, 0),
{
    let n = ns.len();
    if n > MAX_NEURONS {
        return false;
    }
    if bias && n == 0 {
        return false;
    }
    let mut i: usize = 0;
    while i < n
        invariant
            n == ns@.len(),
            n <= MAX_NEURONS,
            bias ==> n >= 1,
            0 <= i <= n,
            forall|j: int|
                0 <= j < i ==> wf_neuron(
                    #[trigger] ns@[j]@,
                    if bias && j == n - 1 {
                        NeuronKind::Bias
                    } else {
                        NeuronKind::Input
                    },
                    0,
                ),
        decreases n - i,
    {
        let is_bias_pos = bias && i == n - 1;
        let ok: bool = match &ns[i] {
            Neuron::Input(p) => !is_bias_pos && -VMAX <= p.output_value && p.output_value
                <= VMAX,
            Neuron::Bias(b) => is_bias_pos && b.output_value == SCALE,
            _ => false,
        };
        if !ok {
            proof {
                assert(!wf_neuron(
                    nmodels(ns@)[i as int],
                    if bias && i == n - 1 {
                        NeuronKind::Bias
                    } else {
                        NeuronKind::Input
                    },
                    0,
                ));
            }
            return false;
        }
        i = i + 1;
    }
    proof {
        assert forall|j: int| 0 <= j < nmodels(ns@).len() implies wf_neuron(
            #[trigger] nmodels(ns@)[j],
            if bias && j == nmodels(ns@).len() - 1 {
                NeuronKind::Bias
            } else {
                NeuronKind::Input
            },
            0,
        ) by {
            assert(wf_neuron(
                ns@[j]@,
                if bias && j == n - 1 {
                    NeuronKind::Bias
                } else {
                    NeuronKind::Input
                },
                0,
            ));
        }
    }
    true
}

/// Whether a neuron vector is a well-formed run of weighted units of
/// fan-in `fanin` — output units when `outputs` is set, hidden units
/// otherwise — with a bias unit last when `bias` is set.
fn check_weighted_run(ns: &Vec<Neuron>, bias: bool, fanin: usize, outputs: bool) -> (r: bool)
    ensures
        r == wf_neurons(
            nmodels(ns@),
            if outputs {
                NeuronKind::Output
            } else {
                NeuronKind::Hidden
            },
            bias,
            fanin as nat,
        ),
{
    let ghost kind = if outputs {
        NeuronKind::Output
    } else {
        NeuronKind::Hidden
    };
    let n = ns.len();
    if n > MAX_NEURONS {
        return false;
    }
    if bias && n == 0 {
        return false;
    }
    let mut i: usize = 0;
    while i < n
        invariant
            n == ns@.len(),
            n <= MAX_NEURONS,
            bias ==> n >= 1,
            0 <= i <= n,
            kind == if outputs {
                NeuronKind::Output
            } else {
                NeuronKind::Hidden
            },
            forall|j: int|
                0 <= j < i ==> wf_neuron(
                    #[trigger] ns@[j]@,
                    if bias && j == n - 1 {
                        NeuronKind::Bias
                    } else {
                        kind
                    },
                    fanin as nat,
                ),
        decreases n - i,
    {
        let is_bias_pos = bias && i == n - 1;
        let ok: bool = match &ns[i] {
            Neuron::Hidden(h) => !outputs && !is_bias_pos && -VMAX <= h.input_value
                && h.input_value <= VMAX && -VMAX <= h.output_value && h.output_value <= VMAX
                && h.weights.len() == fanin && weights_in_range(&h.weights),
            Neuron::Output(o) => outputs && !is_bias_pos && -VMAX <= o.input_value
                && o.input_value <= VMAX && -VMAX <= o.output_value && o.output_value <= VMAX
                && o.weights.len() == fanin && weights_in_range(&o.weights),
            Neuron::Bias(b) => is_bias_pos && b.output_value == SCALE,
            _ => false,
        };
        if !ok {
            proof {
                assert(!wf_neuron(
                    nmodels(ns@)[i as int],
                    if bias && i == n - 1 {
                        NeuronKind::Bias
                    } else {
                        kind
                    },
                    fanin as nat,
                ));
            }
            return false;
        }
        i = i + 1;
    }
    proof {
        assert forall|j: int| 0 <= j < nmodels(ns@).len() implies wf_neuron(
            #[trigger] nmodels(ns@)[j],
            if bias && j == nmodels(ns@).len() - 1 {
                NeuronKind::Bias
            } else {
                kind
            },
            fanin as nat,
        ) by {
            assert(wf_neuron(
                ns@[j]@,
                if bias && j == n - 1 {
                    NeuronKind::Bias
                } else {
                    kind
                },
                fanin as nat,
            ));
        }
    }
    true
}

impl Network {
    /// Assemble a network from pre-built layers, running the pre-flight
    /// fan-in consistency check first: construction succeeds exactly when
    /// every layer's weight vectors match the width of the layer before
    /// it and every stored value is a valid scalar.
    pub fn new(
        input_layer: InputLayer,
        hidden_layer: Vec<HiddenLayer>,
        output_layer: OutputLayer,
    ) -> (r: Result<Network, NetError>)
        ensures
            ({
                let m = NetModel {
                    input: input_layer@,
                    hidden: hmodels(hidden_layer@),
                    output: output_layer@,
                };
                match r {
                    Ok(net) => net@ == m && wf_net(m),
                    Err(e) => e == NetError::ConfigurationError && !wf_net(m),
                }
            }),
    {
        let ghost m = NetModel {
            input: input_layer@,
            hidden: hmodels(hidden_layer@),
            output: output_layer@,
        };
        if !check_input_run(&input_layer.inputs, input_layer.has_bias) {
            return Err(NetError::ConfigurationError);
        }
        let hn = hidden_layer.len();
        if hn == 0 {
            return Err(NetError::ConfigurationError);
        }
        let mut prev_len = input_layer.inputs.len();
        let mut k: usize = 0;
        while k < hn
            invariant
                hn == hidden_layer@.len(),
                0 <= k <= hn,
                prev_len == fanin_at(m, k as int),
                m.input == input_layer@,
                m.hidden == hmodels(hidden_layer@),
                wf_input_layer(m.input),
                forall|j: int|
                    0 <= j < k ==> wf_hidden_layer(#[trigger] m.hidden[j], fanin_at(m, j)),
            decreases hn - k,
        {
            let l = &hidden_layer[k];
            if !check_weighted_run(&l.neurons, l.bias, prev_len, false) {
                proof {
                    assert(!wf_hidden_layer(m.hidden[k as int], fanin_at(m, k as int)));
                }
                return Err(NetError::ConfigurationError);
            }
            prev_len = l.neurons.len();
            k = k + 1;
        }
        if !check_weighted_run(&output_layer.outputs, false, prev_len, true) {
            proof {
                assert(!wf_output_layer(m.output, m.hidden.last().ns.len()));
            }
            return Err(NetError::ConfigurationError);
        }
        Ok(Network { input_layer, hidden_layer, output_layer })
    }

    /// The activated output of the output neuron at `index`, or an
    /// `IndexError` when the index is out of range.
    pub fn get_output(&self, index: usize) -> (r: Result<i64, NetError>)
        ensures
            match r {
                Ok(v) => index < self@.output.ns.len() && v as int == self@.output.ns[
                    index as int
                ].ov,
                Err(e) => e == NetError::IndexError && index >= self@.output.ns.len(),
            },
    {
        if index < self.output_layer.outputs.len() {
            proof {
                assert(nmodels(self.output_layer.outputs@)[index as int]
                    == self.output_layer.outputs@[index as int]@);
            }
            Ok(self.output_layer.outputs[index].get_output_value())
        } else {
            Err(NetError::IndexError)
        }
    }

    /// The summed error of the current outputs against `expected`: half
    /// the squared difference for each output neuron.  Pure: the network
    /// is not touched.
    pub fn calc_total_error(&self, expected: Vec<i64>) -> (r: i64)
        requires
            wf_net(self@),
            expected@.len() == self@.output.ns.len(),
            forall|i: int| 0 <= i < expected@.len() ==> in_range(#[trigger] expected@[i] as int),
        ensures
            r == total_err(ovs(self@.output.ns), ints(expected@), expected@.len() as int),
            in_range(r as int),
    {
        let n = self.output_layer.outputs.len();
        let mut err: i64 = 0;
        let mut j: usize = 0;
        while j < n
            invariant
                wf_net(self@),
                n == self@.output.ns.len(),
                expected@.len() == n,
                forall|i: int| 0 <= i < n ==> in_range(#[trigger] expected@[i] as int),
                0 <= j <= n,
                err == total_err(ovs(self@.output.ns), ints(expected@), j as int),
                in_range(err as int),
            decreases n - j,
        {
            proof {
                assert(wf_neuron(nmodels(self.output_layer.outputs@)[j as int],
                    NeuronKind::Output, self@.hidden.last().ns.len()));
            }
            let o = match &self.output_layer.outputs[j] {
                Neuron::Output(o) => o.output_value,
                _ => vstd::pervasive::unreached(),
            };
            let e = expected[j];
            let t = half_square(o - e);
            err = sat_add(err, t);
            j = j + 1;
        }
        err
    }
}


/// One neuron after a forward step over the previous layer's values: a
/// weighted neuron accumulates the dot product of `vals` with its weights
/// and activates it; input and bias neurons are left untouched.
pub open spec fn neuron_forward(vals: Seq<int>, n: NeuronModel, act: Activation) -> NeuronModel {
    if n.kind == NeuronKind::Hidden || n.kind == NeuronKind::Output {
        NeuronModel {
            kind: n.kind,
            iv: dot_spec(vals, n.ws),
            ov: act.eval(dot_spec(vals, n.ws)),
            ws: n.ws,
        }
    } else {
        n
    }
}

/// One layer after a forward step over the previous layer's values.
pub open spec fn layer_forward(vals: Seq<int>, l: LayerModel) -> LayerModel {
    LayerModel {
        ns: Seq::new(l.ns.len(), |i: int| neuron_forward(vals, l.ns[i], l.act)),
        act: l.act,
        bias: l.bias,
    }
}

/// The hidden run after a forward pass fed by `vals`, each layer reading
/// the freshly updated outputs of the one before it.
pub open spec fn forward_hiddens(vals: Seq<int>, hs: Seq<LayerModel>) -> Seq<LayerModel>
    decreases hs.len(),
{
    if hs.len() == 0 {
        Seq::empty()
    } else {
        let h = layer_forward(vals, hs[0]);
        seq![h] + forward_hiddens(ovs(h.ns), hs.subrange(1, hs.len() as int))
    }
}

/// The whole network after one forward pass.
pub open spec fn forward_model(m: NetModel) -> NetModel {
    let hs = forward_hiddens(ovs(m.input.ns), m.hidden);
    let lastvals = if hs.len() == 0 {
        ovs(m.input.ns)
    } else {
        ovs(hs.last().ns)
    };
    NetModel { input: m.input, hidden: hs, output: layer_forward(lastvals, m.output) }
}

/// A forward step changes neither a layer's shape nor its weights, leaves
/// its weightless neurons untouched, and stores only valid scalars.
pub proof fn lemma_layer_forward_props(vals: Seq<int>, l: LayerModel)
    ensures
        layer_forward(vals, l).ns.len() == l.ns.len(),
        layer_forward(vals, l).act == l.act,
        layer_forward(vals, l).bias == l.bias,
        forall|i: int|
            0 <= i < l.ns.len() ==> (#[trigger] layer_forward(vals, l).ns[i]).kind
                == l.ns[i].kind,
        forall|i: int|
            0 <= i < l.ns.len() ==> (#[trigger] layer_forward(vals, l).ns[i]).ws == l.ns[i].ws,
        forall|i: int|
            0 <= i < l.ns.len() && (l.ns[i].kind == NeuronKind::Input || l.ns[i].kind
                == NeuronKind::Bias) ==> #[trigger] layer_forward(vals, l).ns[i] == l.ns[i],
        forall|i: int|
            0 <= i < l.ns.len() && (l.ns[i].kind == NeuronKind::Hidden || l.ns[i].kind
                == NeuronKind::Output) ==> in_range(
                (#[trigger] layer_forward(vals, l).ns[i]).iv,
            ) && in_range(layer_forward(vals, l).ns[i].ov),
{
    assert forall|i: int|
        0 <= i < l.ns.len() && (l.ns[i].kind == NeuronKind::Hidden || l.ns[i].kind
            == NeuronKind::Output) implies in_range((#[trigger] layer_forward(vals, l).ns[i]).iv)
        && in_range(layer_forward(vals, l).ns[i].ov) by {
        crate::activation_functions::lemma_eval_range(l.act, dot_spec(vals, l.ns[i].ws));
    }
}

/// A forward step preserves the well-formedness of a weighted layer.
pub proof fn lemma_layer_forward_wf(vals: Seq<int>, l: LayerModel, kind: NeuronKind, fanin: nat)
    requires
        wf_neurons(l.ns, kind, l.bias, fanin),
        kind == NeuronKind::Hidden || kind == NeuronKind::Output,
    ensures
        wf_neurons(layer_forward(vals, l).ns, kind, l.bias, fanin),
{
    lemma_layer_forward_props(vals, l);
    let r = layer_forward(vals, l);
    assert forall|i: int| 0 <= i < r.ns.len() implies wf_neuron(
        #[trigger] r.ns[i],
        if l.bias && i == r.ns.len() - 1 {
            NeuronKind::Bias
        } else {
            kind
        },
        fanin,
    ) by {
        assert(wf_neuron(
            l.ns[i],
            if l.bias && i == l.ns.len() - 1 {
                NeuronKind::Bias
            } else {
                kind
            },
            fanin,
        ));
    }
}

/// The fan-in of layer `k` of a hidden run whose first layer reads a
/// previous layer of width `fanin0`.
pub open spec fn hidden_fanin_at(hs: Seq<LayerModel>, fanin0: nat, k: int) -> nat {
    if k == 0 {
        fanin0
    } else {
        hs[k - 1].ns.len()
    }
}

/// A forward pass over a well-formed hidden run preserves every layer's
/// shape, weights and weightless neurons, and keeps the run well formed.
pub proof fn lemma_forward_hiddens_props(vals: Seq<int>, hs: Seq<LayerModel>, fanin0: nat)
    requires
        forall|k: int|
            0 <= k < hs.len() ==> wf_hidden_layer(#[trigger] hs[k], hidden_fanin_at(hs, fanin0, k)),
    ensures
        forward_hiddens(vals, hs).len() == hs.len(),
        forall|k: int|
            0 <= k < hs.len() ==> {
                &&& (#[trigger] forward_hiddens(vals, hs)[k]).act == hs[k].act
                &&& forward_hiddens(vals, hs)[k].bias == hs[k].bias
                &&& forward_hiddens(vals, hs)[k].ns.len() == hs[k].ns.len()
                &&& wf_hidden_layer(
                    forward_hiddens(vals, hs)[k],
                    hidden_fanin_at(hs, fanin0, k),
                )
            },
        forall|k: int, i: int|
            0 <= k < hs.len() && 0 <= i < hs[k].ns.len() ==> {
                &&& (#[trigger] forward_hiddens(vals, hs)[k].ns[i]).kind == hs[k].ns[i].kind
                &&& forward_hiddens(vals, hs)[k].ns[i].ws == hs[k].ns[i].ws
                &&& ((hs[k].ns[i].kind == NeuronKind::Input || hs[k].ns[i].kind
                    == NeuronKind::Bias) ==> forward_hiddens(vals, hs)[k].ns[i] == hs[k].ns[i])
            },
    decreases hs.len(),
{
    if hs.len() > 0 {
        let h0 = layer_forward(vals, hs[0]);
        let tail = hs.subrange(1, hs.len() as int);
        lemma_layer_forward_props(vals, hs[0]);
        assert(wf_hidden_layer(hs[0], fanin0));
        lemma_layer_forward_wf(vals, hs[0], NeuronKind::Hidden, fanin0);
        assert forall|k: int|
            0 <= k < tail.len() implies wf_hidden_layer(
            #[trigger] tail[k],
            hidden_fanin_at(tail, h0.ns.len(), k),
        ) by {
            assert(wf_hidden_layer(hs[k + 1], hidden_fanin_at(hs, fanin0, k + 1)));
            if k == 0 {
                assert(hidden_fanin_at(tail, h0.ns.len(), 0) == h0.ns.len());
                assert(h0.ns.len() == hs[0].ns.len());
            } else {
                assert(tail[k - 1] == hs[k]);
            }
        }
        lemma_forward_hiddens_props(ovs(h0.ns), tail, h0.ns.len());
        let rest = forward_hiddens(ovs(h0.ns), tail);
        let r = forward_hiddens(vals, hs);
        assert(r == seq![h0] + rest);
        assert(r.len() == hs.len());
        assert forall|k: int| 0 <= k < hs.len() implies {
            &&& (#[trigger] r[k]).act == hs[k].act
            &&& r[k].bias == hs[k].bias
            &&& r[k].ns.len() == hs[k].ns.len()
            &&& wf_hidden_layer(r[k], hidden_fanin_at(hs, fanin0, k))
        } by {
            if k == 0 {
                assert(r[0] == h0);
            } else {
                assert(r[k] == rest[k - 1]);
                assert(tail[k - 1] == hs[k]);
                assert(wf_hidden_layer(rest[k - 1], hidden_fanin_at(tail, h0.ns.len(), k - 1)));
                assert(hidden_fanin_at(tail, h0.ns.len(), k - 1) == hidden_fanin_at(
                    hs,
                    fanin0,
                    k,
                ));
            }
        }
        assert forall|k: int, i: int|
            0 <= k < hs.len() && 0 <= i < hs[k].ns.len() implies {
            &&& (#[trigger] r[k].ns[i]).kind == hs[k].ns[i].kind
            &&& r[k].ns[i].ws == hs[k].ns[i].ws
            &&& ((hs[k].ns[i].kind == NeuronKind::Input || hs[k].ns[i].kind == NeuronKind::Bias)
                ==> r[k].ns[i] == hs[k].ns[i])
        } by {
            if k == 0 {
                assert(r[0] == h0);
            } else {
                assert(r[k] == rest[k - 1]);
                assert(tail[k - 1] == hs[k]);
            }
        }
    }
}

/// A forward pass keeps a well-formed network well formed.
pub proof fn lemma_forward_net_wf(m: NetModel)
    requires
        wf_net(m),
    ensures
        wf_net(forward_model(m)),
{
    let r = forward_model(m);
    assert forall|k: int|
        0 <= k < m.hidden.len() implies wf_hidden_layer(
        #[trigger] m.hidden[k],
        hidden_fanin_at(m.hidden, m.input.ns.len(), k),
    ) by {
        assert(wf_hidden_layer(m.hidden[k], fanin_at(m, k)));
    }
    lemma_forward_hiddens_props(ovs(m.input.ns), m.hidden, m.input.ns.len());
    let hs = forward_hiddens(ovs(m.input.ns), m.hidden);
    assert forall|k: int|
        0 <= k < r.hidden.len() implies wf_hidden_layer(#[trigger] r.hidden[k], fanin_at(r, k)) by {
        assert(wf_hidden_layer(hs[k], hidden_fanin_at(m.hidden, m.input.ns.len(), k)));
        if k > 0 {
            assert(hs[k - 1].ns.len() == m.hidden[k - 1].ns.len());
        }
    }
    assert(hs.last().ns.len() == m.hidden.last().ns.len());
    lemma_layer_forward_wf(
        ovs(hs.last().ns),
        m.output,
        NeuronKind::Output,
        m.hidden.last().ns.len(),
    );
}


/// A fresh copy of a weight vector.
fn copy_weights(v: &Vec<i64>) -> (r: Vec<i64>)
    ensures
        r@ == v@,
{
    let mut out: Vec<i64> = Vec::new();
    let n = v.len();
    let mut i: usize = 0;
    while i < n
        invariant
            n == v@.len(),
            0 <= i <= n,
            out@.len() == i,
            forall|j: int| 0 <= j < i ==> out@[j] == v@[j],
        decreases n - i,
    {
        out.push(v[i]);
        i = i + 1;
    }
    proof {
        assert(out@ =~= v@);
    }
    out
}

/// One layer's forward step: a fresh neuron vector in which every
/// weighted neuron holds the dot product of `vals` with its weights and
/// its activation, and every other neuron is copied unchanged.
fn forward_neurons(vals: &Vec<i64>, ns: &Vec<Neuron>, act: Activation) -> (r: Vec<Neuron>)
    requires
        vals@.len() <= MAX_NEURONS,
        forall|i: int| 0 <= i < vals@.len() ==> in_range(#[trigger] vals@[i] as int),
        forall|j: int|
            0 <= j < ns@.len() && ((#[trigger] ns@[j]@).kind == NeuronKind::Hidden || ns@[j]@.kind
                == NeuronKind::Output) ==> ns@[j]@.ws.len() == vals@.len() && (forall|k: int|
                0 <= k < ns@[j]@.ws.len() ==> in_range(#[trigger] ns@[j]@.ws[k])),
    ensures
        r@.len() == ns@.len(),
        forall|j: int|
            0 <= j < ns@.len() ==> #[trigger] r@[j]@ == neuron_forward(ints(vals@), ns@[j]@, act),
{
    let mut out: Vec<Neuron> = Vec::new();
    let n = ns.len();
    let mut i: usize = 0;
    while i < n
        invariant
            n == ns@.len(),
            0 <= i <= n,
            out@.len() == i,
            vals@.len() <= MAX_NEURONS,
            forall|j: int| 0 <= j < vals@.len() ==> in_range(#[trigger] vals@[j] as int),
            forall|j: int|
                0 <= j < ns@.len() && ((#[trigger] ns@[j]@).kind == NeuronKind::Hidden
                    || ns@[j]@.kind == NeuronKind::Output) ==> ns@[j]@.ws.len() == vals@.len() && (
                forall|k: int| 0 <= k < ns@[j]@.ws.len() ==> in_range(#[trigger] ns@[j]@.ws[k])),
            forall|j: int|
                0 <= j < i ==> #[trigger] out@[j]@ == neuron_forward(ints(vals@), ns@[j]@, act),
        decreases n - i,
    {
        match &ns[i] {
            Neuron::Hidden(h) => {
                proof {
                    assert(ns@[i as int]@.kind == NeuronKind::Hidden);
                    assert forall|k: int| 0 <= k < h.weights@.len() implies in_range(
                        #[trigger] h.weights@[k] as int,
                    ) by {
                        assert(in_range(ints(h.weights@)[k]));
                    }
                }
                let iv = dot(vals, &h.weights);
                let ov = act.apply(iv);
                out.push(
                    Neuron::Hidden(
                        Hidden {
                            input_value: iv,
                            output_value: ov,
                            weights: copy_weights(&h.weights),
                        },
                    ),
                );
            },
            Neuron::Output(o) => {
                proof {
                    assert(ns@[i as int]@.kind == NeuronKind::Output);
                    assert forall|k: int| 0 <= k < o.weights@.len() implies in_range(
                        #[trigger] o.weights@[k] as int,
                    ) by {
                        assert(in_range(ints(o.weights@)[k]));
                    }
                }
                let iv = dot(vals, &o.weights);
                let ov = act.apply(iv);
                out.push(
                    Neuron::Output(
                        Output {
                            input_value: iv,
                            output_value: ov,
                            weights: copy_weights(&o.weights),
                        },
                    ),
                );
            },
            Neuron::Input(p) => {
                out.push(Neuron::Input(Input { output_value: p.output_value }));
            },
            Neuron::Bias(b) => {
                out.push(Neuron::Bias(Bias { output_value: b.output_value }));
            },
        }
        i = i + 1;
    }
    out
}

impl Network {
    /// One forward pass: thread the input layer's values through every
    /// hidden layer in order, then through the output layer, each
    /// weighted neuron accumulating a dot product and activating it.
    /// With unchanged inputs and weights a second pass recomputes exactly
    /// the same state.
    pub fn forward_pass(&mut self)
        requires
            wf_net(old(self)@),
        ensures
            final(self)@ == forward_model(old(self)@),
            wf_net(final(self)@),
    {
        let ghost m0 = self@;
        let ghost v0 = ovs(m0.input.ns);
        let ghost fh = forward_hiddens(v0, m0.hidden);
        proof {
            assert forall|k: int|
                0 <= k < m0.hidden.len() implies wf_hidden_layer(
                #[trigger] m0.hidden[k],
                hidden_fanin_at(m0.hidden, m0.input.ns.len(), k),
            ) by {
                assert(wf_hidden_layer(m0.hidden[k], fanin_at(m0, k)));
            }
            lemma_forward_hiddens_props(v0, m0.hidden, m0.input.ns.len());
        }
        let mut vals = self.input_layer.values_as_vector();
        let n = self.hidden_layer.len();
        proof {
            assert(m0.hidden.subrange(0, n as int) =~= m0.hidden);
            assert(fh.subrange(0, n as int) =~= fh);
        }
        let mut k: usize = 0;
        while k < n
            invariant
                wf_net(m0),
                n == self.hidden_layer@.len(),
                n == m0.hidden.len(),
                0 <= k <= n,
                self.input_layer@ == m0.input,
                self.output_layer@ == m0.output,
                v0 == ovs(m0.input.ns),
                fh == forward_hiddens(v0, m0.hidden),
                fh.len() == n,
                forall|j: int|
                    0 <= j < n ==> (#[trigger] fh[j]).ns.len() == m0.hidden[j].ns.len()
                        && wf_hidden_layer(fh[j], hidden_fanin_at(m0.hidden, m0.input.ns.len(), j)),
                forall|j: int| k <= j < n ==> #[trigger] self.hidden_layer@[j]@ == m0.hidden[j],
                forall|j: int| 0 <= j < k ==> #[trigger] self.hidden_layer@[j]@ == fh[j],
                ints(vals@) == if k == 0 {
                    v0
                } else {
                    ovs(fh[k - 1].ns)
                },
                forward_hiddens(ints(vals@), m0.hidden.subrange(k as int, n as int))
                    == fh.subrange(k as int, n as int),
            decreases n - k,
        {
            let ghost hsub = m0.hidden.subrange(k as int, n as int);
            let ghost cur = m0.hidden[k as int];
            proof {
                assert(hsub[0] == cur);
                assert(forward_hiddens(ints(vals@), hsub) == fh.subrange(k as int, n as int));
                assert(fh.subrange(k as int, n as int)[0] == fh[k as int]);
                assert(fh[k as int] == layer_forward(ints(vals@), cur));
                assert(wf_hidden_layer(cur, fanin_at(m0, k as int)));
                assert(ints(vals@).len() == fanin_at(m0, k as int));
                assert forall|j: int|
                    0 <= j < cur.ns.len() && ((#[trigger] cur.ns[j]).kind == NeuronKind::Hidden
                        || cur.ns[j].kind == NeuronKind::Output) implies cur.ns[j].ws.len()
                    == ints(vals@).len() && (forall|t: int|
                    0 <= t < cur.ns[j].ws.len() ==> in_range(#[trigger] cur.ns[j].ws[t])) by {
                    assert(wf_neuron(
                        cur.ns[j],
                        if cur.bias && j == cur.ns.len() - 1 {
                            NeuronKind::Bias
                        } else {
                            NeuronKind::Hidden
                        },
                        fanin_at(m0, k as int),
                    ));
                }
                assert forall|j: int| 0 <= j < vals@.len() implies in_range(
                    #[trigger] vals@[j] as int,
                ) by {
                    assert(ints(vals@)[j] == vals@[j] as int);
                    if k == 0 {
                        assert(wf_neuron(
                            m0.input.ns[j],
                            if m0.input.bias && j == m0.input.ns.len() - 1 {
                                NeuronKind::Bias
                            } else {
                                NeuronKind::Input
                            },
                            0,
                        ));
                    } else {
                        assert(wf_neuron(
                            fh[k - 1].ns[j],
                            if fh[k - 1].bias && j == fh[k - 1].ns.len() - 1 {
                                NeuronKind::Bias
                            } else {
                                NeuronKind::Hidden
                            },
                            hidden_fanin_at(m0.hidden, m0.input.ns.len(), k - 1),
                        ));
                    }
                }
            }
            let act = self.hidden_layer[k].activation_function;
            let ghost curv = self.hidden_layer@[k as int].neurons@;
            proof {
                assert(self.hidden_layer@[k as int]@ == cur);
                assert(cur.ns == nmodels(curv));
                assert forall|j: int|
                    0 <= j < curv.len() && ((#[trigger] curv[j]@).kind == NeuronKind::Hidden
                        || curv[j]@.kind == NeuronKind::Output) implies curv[j]@.ws.len()
                    == vals@.len() && (forall|t: int|
                    0 <= t < curv[j]@.ws.len() ==> in_range(#[trigger] curv[j]@.ws[t])) by {
                    assert(nmodels(curv)[j] == curv[j]@);
                }
            }
            let new_ns = forward_neurons(&vals, &self.hidden_layer[k].neurons, act);
            let new_vals = values_of(&new_ns);
            proof {
                assert forall|j: int|
                    0 <= j < nmodels(new_ns@).len() implies #[trigger] nmodels(new_ns@)[j]
                    == layer_forward(ints(vals@), cur).ns[j] by {
                    assert(nmodels(curv)[j] == curv[j]@);
                    assert(new_ns@[j]@ == neuron_forward(ints(vals@), curv[j]@, act));
                    assert(cur.ns[j] == curv[j]@);
                }
                assert(nmodels(new_ns@) =~= layer_forward(ints(vals@), cur).ns);
            }
            let lref = &mut self.hidden_layer[k];
            lref.neurons = new_ns;
            proof {
                assert(self.hidden_layer@[k as int]@ == fh[k as int]);
                assert(ints(new_vals@) == ovs(fh[k as int].ns));
                assert(hsub.subrange(1, hsub.len() as int) =~= m0.hidden.subrange(
                    k + 1,
                    n as int,
                ));
                assert(fh.subrange(k as int, n as int).subrange(
                    1,
                    fh.subrange(k as int, n as int).len() as int,
                ) =~= fh.subrange(k + 1, n as int));
                assert(forward_hiddens(ints(new_vals@), m0.hidden.subrange(k + 1, n as int))
                    == fh.subrange(k + 1, n as int));
            }
            vals = new_vals;
            k = k + 1;
        }
        let ghost lastvals = ovs(fh[n - 1].ns);
        proof {
            assert(ints(vals@) == lastvals);
            assert(wf_output_layer(m0.output, m0.hidden.last().ns.len()));
            assert(ints(vals@).len() == m0.hidden.last().ns.len());
            assert forall|j: int|
                0 <= j < m0.output.ns.len() && ((#[trigger] m0.output.ns[j]).kind
                    == NeuronKind::Hidden || m0.output.ns[j].kind == NeuronKind::Output) implies m0
                .output.ns[j].ws.len() == ints(vals@).len() && (forall|t: int|
                0 <= t < m0.output.ns[j].ws.len() ==> in_range(
                    #[trigger] m0.output.ns[j].ws[t],
                )) by {
                assert(wf_neuron(m0.output.ns[j], NeuronKind::Output, m0.hidden.last().ns.len()));
            }
            assert forall|j: int| 0 <= j < vals@.len() implies in_range(
                #[trigger] vals@[j] as int,
            ) by {
                assert(ints(vals@)[j] == vals@[j] as int);
                assert(wf_neuron(
                    fh[n - 1].ns[j],
                    if fh[n - 1].bias && j == fh[n - 1].ns.len() - 1 {
                        NeuronKind::Bias
                    } else {
                        NeuronKind::Hidden
                    },
                    hidden_fanin_at(m0.hidden, m0.input.ns.len(), n - 1),
                ));
            }
        }
        let act_out = self.output_layer.activation_function;
        let ghost outv = self.output_layer.outputs@;
        proof {
            assert(self.output_layer@ == m0.output);
            assert(m0.output.ns == nmodels(outv));
            assert forall|j: int|
                0 <= j < outv.len() && ((#[trigger] outv[j]@).kind == NeuronKind::Hidden
                    || outv[j]@.kind == NeuronKind::Output) implies outv[j]@.ws.len()
                == vals@.len() && (forall|t: int|
                0 <= t < outv[j]@.ws.len() ==> in_range(#[trigger] outv[j]@.ws[t])) by {
                assert(nmodels(outv)[j] == outv[j]@);
                assert(wf_neuron(m0.output.ns[j], NeuronKind::Output, m0.hidden.last().ns.len()));
            }
        }
        let new_outs = forward_neurons(&vals, &self.output_layer.outputs, act_out);
        proof {
            assert forall|j: int|
                0 <= j < nmodels(new_outs@).len() implies #[trigger] nmodels(new_outs@)[j]
                == layer_forward(lastvals, m0.output).ns[j] by {
                assert(nmodels(outv)[j] == outv[j]@);
                assert(new_outs@[j]@ == neuron_forward(ints(vals@), outv[j]@, act_out));
                assert(m0.output.ns[j] == outv[j]@);
            }
            assert(nmodels(new_outs@) =~= layer_forward(lastvals, m0.output).ns);
        }
        self.output_layer.outputs = new_outs;
        proof {
            assert forall|j: int| 0 <= j < n implies #[trigger] hmodels(self.hidden_layer@)[j]
                == fh[j] by {
                assert(self.hidden_layer@[j]@ == fh[j]);
            }
            assert(hmodels(self.hidden_layer@) =~= fh);
            assert(self.output_layer@ == layer_forward(lastvals, m0.output));
            assert(fh.last() == fh[n - 1]);
            assert(self@ == forward_model(m0));
            lemma_forward_net_wf(m0);
        }
    }
}


/// A run of zeroes, the initial per-neuron delta accumulator.
pub open spec fn zero_seq(n: nat) -> Seq<int> {
    Seq::new(n, |i: int| 0)
}

/// The delta of one output neuron: its raw error times the activation
/// derivative at its output.
pub open spec fn out_delta(n: NeuronModel, e: int, act: Activation) -> int {
    mul_spec(n.ov - e, act.eval_derivative(n.ov))
}

/// Deltas after one neuron with delta `dj` propagated its error backward
/// through its (pre-update) weights.
pub open spec fn acc_deltas(d: Seq<int>, dj: int, ws: Seq<int>) -> Seq<int> {
    Seq::new(d.len(), |k: int| add_spec(d[k], mul_spec(dj, ws[k])))
}

/// One neuron's weights after a gradient step: each weight moves against
/// the gradient by the learning rate times its delta times the previous
/// layer's output it multiplies.
pub open spec fn upd_weights(ws: Seq<int>, dj: int, lr: int, prev: Seq<int>) -> Seq<int> {
    Seq::new(ws.len(), |k: int| sub_spec(ws[k], mul_spec(mul_spec(lr, dj), prev[k])))
}

/// The output layer's backward step after its first `j` neurons: the
/// deltas handed to the last hidden layer, the accumulated error, and the
/// updated neurons so far.
pub open spec fn out_stage(
    l: LayerModel,
    expected: Seq<int>,
    prev: Seq<int>,
    lr: int,
    j: int,
) -> (Seq<int>, int, Seq<NeuronModel>)
    decreases j,
{
    if j <= 0 {
        (zero_seq(prev.len()), 0, Seq::empty())
    } else {
        let s = out_stage(l, expected, prev, lr, j - 1);
        let n = l.ns[j - 1];
        let dj = out_delta(n, expected[j - 1], l.act);
        (
            acc_deltas(s.0, dj, n.ws),
            add_spec(s.1, half_sq(n.ov - expected[j - 1])),
            s.2.push(
                NeuronModel { kind: n.kind, iv: n.iv, ov: n.ov, ws: upd_weights(n.ws, dj, lr, prev) },
            ),
        )
    }
}

/// One hidden layer's backward step after its first `i` neurons: the
/// deltas handed to the layer before it, and the updated neurons so far.
/// A bias unit owns no weights: it is carried over unchanged.
pub open spec fn hid_stage(
    l: LayerModel,
    d: Seq<int>,
    prev: Seq<int>,
    lr: int,
    i: int,
) -> (Seq<int>, Seq<NeuronModel>)
    decreases i,
{
    if i <= 0 {
        (zero_seq(prev.len()), Seq::empty())
    } else {
        let s = hid_stage(l, d, prev, lr, i - 1);
        let n = l.ns[i - 1];
        if n.kind == NeuronKind::Hidden {
            let di = mul_spec(d[i - 1], l.act.eval_derivative(n.ov));
            (
                acc_deltas(s.0, di, n.ws),
                s.1.push(
                    NeuronModel {
                        kind: n.kind,
                        iv: n.iv,
                        ov: n.ov,
                        ws: upd_weights(n.ws, di, lr, prev),
                    },
                ),
            )
        } else {
            (s.0, s.1.push(n))
        }
    }
}

/// The hidden run after a backward sweep from its last layer to its
/// first, fed the deltas `d` of the layer above; the layer before each
/// reads its pre-pass outputs, the first reading the input layer's.
pub open spec fn backward_hiddens(
    hs: Seq<LayerModel>,
    d: Seq<int>,
    input_vals: Seq<int>,
    lr: int,
) -> Seq<LayerModel>
    decreases hs.len(),
{
    if hs.len() == 0 {
        Seq::empty()
    } else {
        let k = hs.len() - 1;
        let prev = if k == 0 {
            input_vals
        } else {
            ovs(hs[k - 1].ns)
        };
        let s = hid_stage(hs[k], d, prev, lr, hs[k].ns.len() as int);
        backward_hiddens(hs.subrange(0, k), s.0, input_vals, lr).push(
            LayerModel { ns: s.1, act: hs[k].act, bias: hs[k].bias },
        )
    }
}

/// The whole network after one backward pass, and the error it returns.
pub open spec fn backward_model(m: NetModel, expected: Seq<int>, lr: int) -> (NetModel, int) {
    let prev = ovs(m.hidden.last().ns);
    let s = out_stage(m.output, expected, prev, lr, m.output.ns.len() as int);
    let hs = backward_hiddens(m.hidden, s.0, ovs(m.input.ns), lr);
    (
        NetModel {
            input: m.input,
            hidden: hs,
            output: LayerModel { ns: s.2, act: m.output.act, bias: false },
        },
        s.1,
    )
}

/// The error a backward pass accumulates is exactly the total error of
/// the pre-update outputs.
pub proof fn lemma_out_stage_err(l: LayerModel, expected: Seq<int>, prev: Seq<int>, lr: int, j: int)
    requires
        0 <= j <= l.ns.len(),
    ensures
        out_stage(l, expected, prev, lr, j).1 == total_err(ovs(l.ns), expected, j),
    decreases j,
{
    if j > 0 {
        lemma_out_stage_err(l, expected, prev, lr, j - 1);
        assert(ovs(l.ns)[j - 1] == l.ns[j - 1].ov);
    }
}

/// The output stage deltas keep the width of the last hidden layer, its
/// error stays a valid scalar, and its updated neurons keep their role,
/// accumulator, output and weight count, with every weight in range.
pub proof fn lemma_out_stage_props(
    l: LayerModel,
    expected: Seq<int>,
    prev: Seq<int>,
    lr: int,
    j: int,
)
    requires
        0 <= j <= l.ns.len(),
    ensures
        out_stage(l, expected, prev, lr, j).0.len() == prev.len(),
        forall|t: int|
            0 <= t < prev.len() ==> in_range(#[trigger] out_stage(l, expected, prev, lr, j).0[t]),
        in_range(out_stage(l, expected, prev, lr, j).1),
        out_stage(l, expected, prev, lr, j).2.len() == j,
        forall|t: int|
            0 <= t < j ==> {
                &&& (#[trigger] out_stage(l, expected, prev, lr, j).2[t]).kind == l.ns[t].kind
                &&& out_stage(l, expected, prev, lr, j).2[t].iv == l.ns[t].iv
                &&& out_stage(l, expected, prev, lr, j).2[t].ov == l.ns[t].ov
                &&& out_stage(l, expected, prev, lr, j).2[t].ws == upd_weights(
                    l.ns[t].ws,
                    out_delta(l.ns[t], expected[t], l.act),
                    lr,
                    prev,
                )
                &&& out_stage(l, expected, prev, lr, j).2[t].ws.len() == l.ns[t].ws.len()
                &&& forall|w: int|
                    0 <= w < l.ns[t].ws.len() ==> in_range(
                        #[trigger] out_stage(l, expected, prev, lr, j).2[t].ws[w],
                    )
            },
    decreases j,
{
    if j > 0 {
        lemma_out_stage_props(l, expected, prev, lr, j - 1);
    }
}

/// The hidden stage deltas keep the width of the layer before, and its
/// updated neurons keep their role, accumulator, output and weight
/// count, with every weight in range; weightless neurons are untouched.
pub proof fn lemma_hid_stage_props(l: LayerModel, d: Seq<int>, prev: Seq<int>, lr: int, i: int)
    requires
        0 <= i <= l.ns.len(),
    ensures
        hid_stage(l, d, prev, lr, i).0.len() == prev.len(),
        forall|t: int|
            0 <= t < prev.len() ==> in_range(#[trigger] hid_stage(l, d, prev, lr, i).0[t]),
        hid_stage(l, d, prev, lr, i).1.len() == i,
        forall|t: int|
            0 <= t < i ==> {
                &&& (#[trigger] hid_stage(l, d, prev, lr, i).1[t]).kind == l.ns[t].kind
                &&& hid_stage(l, d, prev, lr, i).1[t].iv == l.ns[t].iv
                &&& hid_stage(l, d, prev, lr, i).1[t].ov == l.ns[t].ov
                &&& hid_stage(l, d, prev, lr, i).1[t].ws.len() == l.ns[t].ws.len()
                &&& (l.ns[t].kind != NeuronKind::Hidden ==> hid_stage(l, d, prev, lr, i).1[t]
                    == l.ns[t])
                &&& (l.ns[t].kind == NeuronKind::Hidden ==> hid_stage(l, d, prev, lr, i).1[t].ws
                    == upd_weights(
                    l.ns[t].ws,
                    mul_spec(d[t], l.act.eval_derivative(l.ns[t].ov)),
                    lr,
                    prev,
                ))
                &&& (l.ns[t].kind == NeuronKind::Hidden ==> forall|w: int|
                    0 <= w < l.ns[t].ws.len() ==> in_range(
                        #[trigger] hid_stage(l, d, prev, lr, i).1[t].ws[w],
                    ))
            },
    decreases i,
{
    if i > 0 {
        lemma_hid_stage_props(l, d, prev, lr, i - 1);
    }
}


/// A backward sweep over a well-formed hidden run preserves every
/// layer's shape, role assignment and flags, leaves weightless neurons
/// untouched, and keeps the run well formed.
pub proof fn lemma_backward_hiddens_props(
    hs: Seq<LayerModel>,
    d: Seq<int>,
    input_vals: Seq<int>,
    lr: int,
    fanin0: nat,
)
    requires
        forall|k: int|
            0 <= k < hs.len() ==> wf_hidden_layer(#[trigger] hs[k], hidden_fanin_at(hs, fanin0, k)),
    ensures
        backward_hiddens(hs, d, input_vals, lr).len() == hs.len(),
        forall|k: int|
            0 <= k < hs.len() ==> {
                &&& (#[trigger] backward_hiddens(hs, d, input_vals, lr)[k]).act == hs[k].act
                &&& backward_hiddens(hs, d, input_vals, lr)[k].bias == hs[k].bias
                &&& backward_hiddens(hs, d, input_vals, lr)[k].ns.len() == hs[k].ns.len()
                &&& wf_hidden_layer(
                    backward_hiddens(hs, d, input_vals, lr)[k],
                    hidden_fanin_at(hs, fanin0, k),
                )
            },
        forall|k: int, i: int|
            0 <= k < hs.len() && 0 <= i < hs[k].ns.len() ==> {
                &&& (#[trigger] backward_hiddens(hs, d, input_vals, lr)[k].ns[i]).kind
                    == hs[k].ns[i].kind
                &&& backward_hiddens(hs, d, input_vals, lr)[k].ns[i].iv == hs[k].ns[i].iv
                &&& backward_hiddens(hs, d, input_vals, lr)[k].ns[i].ov == hs[k].ns[i].ov
                &&& (hs[k].ns[i].kind != NeuronKind::Hidden ==> backward_hiddens(
                    hs,
                    d,
                    input_vals,
                    lr,
                )[k].ns[i] == hs[k].ns[i])
            },
    decreases hs.len(),
{
    if hs.len() > 0 {
        let kk = hs.len() - 1;
        let prev = if kk == 0 {
            input_vals
        } else {
            ovs(hs[kk - 1].ns)
        };
        let s = hid_stage(hs[kk], d, prev, lr, hs[kk].ns.len() as int);
        lemma_hid_stage_props(hs[kk], d, prev, lr, hs[kk].ns.len() as int);
        let front = hs.subrange(0, kk as int);
        assert forall|k: int|
            0 <= k < front.len() implies wf_hidden_layer(
            #[trigger] front[k],
            hidden_fanin_at(front, fanin0, k),
        ) by {
            assert(front[k] == hs[k]);
            assert(wf_hidden_layer(hs[k], hidden_fanin_at(hs, fanin0, k)));
            if k > 0 {
                assert(front[k - 1] == hs[k - 1]);
            }
        }
        lemma_backward_hiddens_props(front, s.0, input_vals, lr, fanin0);
        let rb = backward_hiddens(front, s.0, input_vals, lr);
        let last = LayerModel { ns: s.1, act: hs[kk].act, bias: hs[kk].bias };
        let r = backward_hiddens(hs, d, input_vals, lr);
        assert(r == rb.push(last));
        assert(wf_hidden_layer(hs[kk], hidden_fanin_at(hs, fanin0, kk as int)));
        assert forall|i: int| 0 <= i < last.ns.len() implies wf_neuron(
            #[trigger] last.ns[i],
            if last.bias && i == last.ns.len() - 1 {
                NeuronKind::Bias
            } else {
                NeuronKind::Hidden
            },
            hidden_fanin_at(hs, fanin0, kk as int),
        ) by {
            assert(wf_neuron(
                hs[kk as int].ns[i],
                if hs[kk as int].bias && i == hs[kk as int].ns.len() - 1 {
                    NeuronKind::Bias
                } else {
                    NeuronKind::Hidden
                },
                hidden_fanin_at(hs, fanin0, kk as int),
            ));
        }
        assert forall|k: int| 0 <= k < hs.len() implies {
            &&& (#[trigger] r[k]).act == hs[k].act
            &&& r[k].bias == hs[k].bias
            &&& r[k].ns.len() == hs[k].ns.len()
            &&& wf_hidden_layer(r[k], hidden_fanin_at(hs, fanin0, k))
        } by {
            if k < kk {
                assert(r[k] == rb[k]);
                assert(front[k] == hs[k]);
                assert(hidden_fanin_at(front, fanin0, k) == hidden_fanin_at(hs, fanin0, k));
            } else {
                assert(r[k] == last);
            }
        }
        assert forall|k: int, i: int|
            0 <= k < hs.len() && 0 <= i < hs[k].ns.len() implies {
            &&& (#[trigger] r[k].ns[i]).kind == hs[k].ns[i].kind
            &&& r[k].ns[i].iv == hs[k].ns[i].iv
            &&& r[k].ns[i].ov == hs[k].ns[i].ov
            &&& (hs[k].ns[i].kind != NeuronKind::Hidden ==> r[k].ns[i] == hs[k].ns[i])
        } by {
            if k < kk {
                assert(r[k] == rb[k]);
                assert(front[k] == hs[k]);
            } else {
                assert(r[k] == last);
            }
        }
    }
}

/// A backward pass keeps a well-formed network well formed.
pub proof fn lemma_backward_net_wf(m: NetModel, expected: Seq<int>, lr: int)
    requires
        wf_net(m),
    ensures
        wf_net(backward_model(m, expected, lr).0),
{
    let prev = ovs(m.hidden.last().ns);
    let s = out_stage(m.output, expected, prev, lr, m.output.ns.len() as int);
    lemma_out_stage_props(m.output, expected, prev, lr, m.output.ns.len() as int);
    assert forall|k: int|
        0 <= k < m.hidden.len() implies wf_hidden_layer(
        #[trigger] m.hidden[k],
        hidden_fanin_at(m.hidden, m.input.ns.len(), k),
    ) by {
        assert(wf_hidden_layer(m.hidden[k], fanin_at(m, k)));
    }
    lemma_backward_hiddens_props(m.hidden, s.0, ovs(m.input.ns), lr, m.input.ns.len());
    let r = backward_model(m, expected, lr).0;
    assert forall|k: int|
        0 <= k < r.hidden.len() implies wf_hidden_layer(#[trigger] r.hidden[k], fanin_at(r, k)) by {
        assert(wf_hidden_layer(r.hidden[k], hidden_fanin_at(m.hidden, m.input.ns.len(), k)));
        if k > 0 {
            assert(r.hidden[k - 1].ns.len() == m.hidden[k - 1].ns.len());
        }
    }
    assert(r.hidden.last().ns.len() == m.hidden.last().ns.len());
    assert forall|i: int| 0 <= i < r.output.ns.len() implies wf_neuron(
        #[trigger] r.output.ns[i],
        NeuronKind::Output,
        r.hidden.last().ns.len(),
    ) by {
        assert(wf_neuron(m.output.ns[i], NeuronKind::Output, m.hidden.last().ns.len()));
    }
}


/// A zero-filled delta accumulator of the given width.
fn zeros(n: usize) -> (r: Vec<i64>)
    ensures
        r@.len() == n,
        forall|j: int| 0 <= j < n ==> #[trigger] r@[j] == 0,
{
    let mut out: Vec<i64> = Vec::new();
    let mut i: usize = 0;
    while i < n
        invariant
            0 <= i <= n,
            out@.len() == i,
            forall|j: int| 0 <= j < i ==> #[trigger] out@[j] == 0,
        decreases n - i,
    {
        out.push(0);
        i = i + 1;
    }
    out
}

impl Network {
    /// One backward pass: compute each output neuron's delta against
    /// `expected`, accumulate the total error of the pre-update outputs,
    /// update every weight by gradient descent with the given learning
    /// rate, and propagate the deltas layer by layer back to the first
    /// hidden layer.  Bias neurons own no weights and are never touched.
    /// Returns the accumulated error.
    pub fn backward_pass(&mut self, expected: Vec<i64>, learning_rate: i64) -> (r: i64)
        requires
            wf_net(old(self)@),
            expected@.len() == old(self)@.output.ns.len(),
            forall|i: int| 0 <= i < expected@.len() ==> in_range(#[trigger] expected@[i] as int),
            0 <= learning_rate <= SCALE,
        ensures
            final(self)@ == backward_model(old(self)@, ints(expected@), learning_rate as int).0,
            r == backward_model(old(self)@, ints(expected@), learning_rate as int).1,
            r == total_err(ovs(old(self)@.output.ns), ints(expected@), expected@.len() as int),
            wf_net(final(self)@),
    {
        let ghost m0 = self@;
        let ghost e = ints(expected@);
        let ghost lrg = learning_rate as int;
        let n = self.hidden_layer.len();
        let mut valss: Vec<Vec<i64>> = Vec::new();
        let mut k: usize = 0;
        while k < n
            invariant
                self@ == m0,
                wf_net(m0),
                n == m0.hidden.len(),
                0 <= k <= n,
                valss@.len() == k,
                forall|j: int| 0 <= j < k ==> ints(#[trigger] valss@[j]@) == ovs(m0.hidden[j].ns),
            decreases n - k,
        {
            proof {
                assert(hmodels(self.hidden_layer@)[k as int] == self.hidden_layer@[k as int]@);
            }
            let v = values_of(&self.hidden_layer[k].neurons);
            valss.push(v);
            k = k + 1;
        }
        let input_vals = self.input_layer.values_as_vector();
        let ghost iv0 = ovs(m0.input.ns);
        let ghost pv = ovs(m0.hidden.last().ns);
        proof {
            assert(m0.hidden.last() == m0.hidden[n - 1]);
        }
        let prev = copy_weights(&valss[n - 1]);
        proof {
            assert(ints(prev@) == pv);
        }
        let pl = prev.len();
        let mut deltas = zeros(pl);
        proof {
            assert(ints(deltas@) =~= zero_seq(pv.len()));
        }
        let mut err: i64 = 0;
        let mut new_outs: Vec<Neuron> = Vec::new();
        let act_out = self.output_layer.activation_function;
        let on = self.output_layer.outputs.len();
        let mut j: usize = 0;
        while j < on
            invariant
                self@ == m0,
                wf_net(m0),
                on == m0.output.ns.len(),
                expected@.len() == on,
                e == ints(expected@),
                forall|i: int| 0 <= i < expected@.len() ==> in_range(
                    #[trigger] expected@[i] as int,
                ),
                0 <= learning_rate <= SCALE,
                lrg == learning_rate as int,
                act_out == m0.output.act,
                pv == ovs(m0.hidden.last().ns),
                prev@.len() == pl,
                ints(prev@) == pv,
                pl == pv.len(),
                0 <= j <= on,
                deltas@.len() == pl,
                ints(deltas@) == out_stage(m0.output, e, pv, lrg, j as int).0,
                forall|t: int| 0 <= t < deltas@.len() ==> in_range(#[trigger] deltas@[t] as int),
                err == out_stage(m0.output, e, pv, lrg, j as int).1,
                in_range(err as int),
                new_outs@.len() == j,
                forall|t: int|
                    0 <= t < j ==> #[trigger] new_outs@[t]@ == out_stage(
                        m0.output,
                        e,
                        pv,
                        lrg,
                        j as int,
                    ).2[t],
            decreases on - j,
        {
            let ghost nm = m0.output.ns[j as int];
            proof {
                lemma_out_stage_props(m0.output, e, pv, lrg, j as int);
                assert(hmodels(self.hidden_layer@) == m0.hidden);
                assert(nmodels(self.output_layer.outputs@)[j as int]
                    == self.output_layer.outputs@[j as int]@);
                assert(wf_neuron(nm, NeuronKind::Output, m0.hidden.last().ns.len()));
                assert(e[j as int] == expected@[j as int] as int);
            }
            let o = match &self.output_layer.outputs[j] {
                Neuron::Output(o) => o,
                _ => vstd::pervasive::unreached(),
            };
            let ov = o.output_value;
            let iv_keep = o.input_value;
            let diff = ov - expected[j];
            let t_err = half_square(diff);
            let dact = act_out.apply_derivative(ov);
            let dj = fix_mul(diff, dact);
            let ghost djg = out_delta(nm, e[j as int], m0.output.act);
            proof {
                assert(dj as int == djg);
            }
            let ghost wsg = nm.ws;
            let ghost d_pre = ints(deltas@);
            let wn = o.weights.len();
            proof {
                assert(wsg == ints(o.weights@));
                assert(wn == pl);
            }
            let mut new_ws: Vec<i64> = Vec::new();
            let mut t: usize = 0;
            while t < wn
                invariant
                    0 <= t <= wn,
                    wn == wsg.len(),
                    wsg == ints(o.weights@),
                    forall|w: int| 0 <= w < wsg.len() ==> in_range(#[trigger] wsg[w]),
                    deltas@.len() == pl,
                    wn == pl,
                    prev@.len() == pl,
                    ints(prev@) == pv,
                    d_pre.len() == pl,
                    forall|idx: int| 0 <= idx < d_pre.len() ==> in_range(#[trigger] d_pre[idx]),
                    dj as int == djg,
                    0 <= learning_rate <= SCALE,
                    lrg == learning_rate as int,
                    forall|idx: int|
                        0 <= idx < t ==> #[trigger] deltas@[idx] as int == add_spec(
                            d_pre[idx],
                            mul_spec(djg, wsg[idx]),
                        ),
                    forall|idx: int| t <= idx < pl ==> #[trigger] deltas@[idx] as int == d_pre[idx],
                    forall|idx: int| 0 <= idx < deltas@.len() ==> in_range(
                        #[trigger] deltas@[idx] as int,
                    ),
                    new_ws@.len() == t,
                    forall|idx: int|
                        0 <= idx < t ==> #[trigger] new_ws@[idx] as int == sub_spec(
                            wsg[idx],
                            mul_spec(mul_spec(lrg, djg), pv[idx]),
                        ),
                decreases wn - t,
            {
                let w = o.weights[t];
                proof {
                    assert(wsg[t as int] == w as int);
                    assert(pv[t as int] == prev@[t as int] as int);
                }
                let cur = deltas[t];
                let nd = sat_add(cur, fix_mul(dj, w));
                deltas[t] = nd;
                let upd = fix_mul(fix_mul(learning_rate, dj), prev[t]);
                new_ws.push(sat_sub(w, upd));
                t = t + 1;
            }
            proof {
                assert(ints(deltas@) =~= acc_deltas(d_pre, djg, wsg));
                assert(ints(new_ws@) =~= upd_weights(wsg, djg, lrg, pv));
            }
            let ov_keep = o.output_value;
            new_outs.push(
                Neuron::Output(
                    Output { input_value: iv_keep, output_value: ov_keep, weights: new_ws },
                ),
            );
            err = sat_add(err, t_err);
            proof {
                let s_new = out_stage(m0.output, e, pv, lrg, j + 1);
                let s_old = out_stage(m0.output, e, pv, lrg, j as int);
                assert(s_new.0 == acc_deltas(s_old.0, djg, nm.ws));
                assert(s_new.1 == add_spec(s_old.1, half_sq(nm.ov - e[j as int])));
                assert(s_new.2 == s_old.2.push(
                    NeuronModel {
                        kind: nm.kind,
                        iv: nm.iv,
                        ov: nm.ov,
                        ws: upd_weights(nm.ws, djg, lrg, pv),
                    },
                ));
            }
            j = j + 1;
        }
        let ghost outdone = LayerModel {
            ns: out_stage(m0.output, e, pv, lrg, on as int).2,
            act: m0.output.act,
            bias: false,
        };
        proof {
            lemma_out_stage_props(m0.output, e, pv, lrg, on as int);
            assert forall|t: int| 0 <= t < nmodels(new_outs@).len() implies #[trigger] nmodels(
                new_outs@,
            )[t] == outdone.ns[t] by {
                assert(new_outs@[t]@ == out_stage(m0.output, e, pv, lrg, on as int).2[t]);
            }
            assert(nmodels(new_outs@) =~= outdone.ns);
        }
        self.output_layer.outputs = new_outs;
        proof {
            assert(self.output_layer@ == outdone);
        }
        let ghost dout = out_stage(m0.output, e, pv, lrg, on as int).0;
        let ghost bh = backward_hiddens(m0.hidden, dout, iv0, lrg);
        proof {
            assert forall|kx: int|
                0 <= kx < m0.hidden.len() implies wf_hidden_layer(
                #[trigger] m0.hidden[kx],
                hidden_fanin_at(m0.hidden, m0.input.ns.len(), kx),
            ) by {
                assert(wf_hidden_layer(m0.hidden[kx], fanin_at(m0, kx)));
            }
            lemma_backward_hiddens_props(m0.hidden, dout, iv0, lrg, m0.input.ns.len());
            assert(m0.hidden.subrange(0, n as int) =~= m0.hidden);
            assert(bh.subrange(0, n as int) =~= bh);
        }
        let mut k2: usize = n;
        while k2 > 0
            invariant
                wf_net(m0),
                n == m0.hidden.len(),
                self.hidden_layer@.len() == n,
                self.input_layer@ == m0.input,
                self.output_layer@ == outdone,
                0 <= k2 <= n,
                valss@.len() == n,
                forall|jx: int| 0 <= jx < n ==> ints(#[trigger] valss@[jx]@) == ovs(
                    m0.hidden[jx].ns,
                ),
                ints(input_vals@) == iv0,
                iv0 == ovs(m0.input.ns),
                bh.len() == n,
                0 <= learning_rate <= SCALE,
                lrg == learning_rate as int,
                forall|jx: int| 0 <= jx < k2 ==> #[trigger] self.hidden_layer@[jx]@ == m0.hidden[jx],
                forall|jx: int| k2 <= jx < n ==> #[trigger] self.hidden_layer@[jx]@ == bh[jx],
                backward_hiddens(m0.hidden.subrange(0, k2 as int), ints(deltas@), iv0, lrg)
                    == bh.subrange(0, k2 as int),
                k2 >= 1 ==> deltas@.len() == m0.hidden[k2 - 1].ns.len(),
                forall|t: int| 0 <= t < deltas@.len() ==> in_range(#[trigger] deltas@[t] as int),
            decreases k2,
        {
            k2 = k2 - 1;
            let ghost lm = m0.hidden[k2 as int];
            let ghost prevv = if k2 == 0 {
                iv0
            } else {
                ovs(m0.hidden[k2 - 1].ns)
            };
            let prev2 = if k2 == 0 {
                copy_weights(&input_vals)
            } else {
                copy_weights(&valss[k2 - 1])
            };
            proof {
                assert(ints(prev2@) == prevv);
            }
            let pl2 = prev2.len();
            let mut temp = zeros(pl2);
            proof {
                assert(ints(temp@) =~= zero_seq(prevv.len()));
            }
            let act_k = self.hidden_layer[k2].activation_function;
            let ln = self.hidden_layer[k2].neurons.len();
            let ghost dg = ints(deltas@);
            proof {
                assert(self.hidden_layer@[k2 as int]@ == lm);
                assert(act_k == lm.act);
                assert(ln == lm.ns.len());
                assert(wf_hidden_layer(lm, fanin_at(m0, k2 as int)));
                assert(prevv.len() == fanin_at(m0, k2 as int));
            }
            let mut new_ns: Vec<Neuron> = Vec::new();
            let mut i2: usize = 0;
            while i2 < ln
                invariant
                    self.hidden_layer@.len() == n,
                    0 <= k2 < n,
                    self.hidden_layer@[k2 as int]@ == lm,
                    wf_hidden_layer(lm, fanin_at(m0, k2 as int)),
                    ln == lm.ns.len(),
                    act_k == lm.act,
                    0 <= i2 <= ln,
                    prev2@.len() == pl2,
                    ints(prev2@) == prevv,
                    pl2 == prevv.len(),
                    pl2 == fanin_at(m0, k2 as int),
                    dg == ints(deltas@),
                    deltas@.len() == ln,
                    forall|t: int| 0 <= t < dg.len() ==> in_range(#[trigger] dg[t]),
                    0 <= learning_rate <= SCALE,
                    lrg == learning_rate as int,
                    temp@.len() == pl2,
                    ints(temp@) == hid_stage(lm, dg, prevv, lrg, i2 as int).0,
                    forall|t: int| 0 <= t < temp@.len() ==> in_range(#[trigger] temp@[t] as int),
                    new_ns@.len() == i2,
                    forall|t: int|
                        0 <= t < i2 ==> #[trigger] new_ns@[t]@ == hid_stage(
                            lm,
                            dg,
                            prevv,
                            lrg,
                            i2 as int,
                        ).1[t],
                decreases ln - i2,
            {
                let ghost nm = lm.ns[i2 as int];
                proof {
                    lemma_hid_stage_props(lm, dg, prevv, lrg, i2 as int);
                    assert(nmodels(self.hidden_layer@[k2 as int].neurons@)[i2 as int]
                        == self.hidden_layer@[k2 as int].neurons@[i2 as int]@);
                    assert(wf_neuron(
                        nm,
                        if lm.bias && i2 == lm.ns.len() - 1 {
                            NeuronKind::Bias
                        } else {
                            NeuronKind::Hidden
                        },
                        fanin_at(m0, k2 as int),
                    ));
                    assert(dg[i2 as int] == deltas@[i2 as int] as int);
                }
                match &self.hidden_layer[k2].neurons[i2] {
                    Neuron::Hidden(h) => {
                        let di = fix_mul(deltas[i2], act_k.apply_derivative(h.output_value));
                        let ghost dig = mul_spec(dg[i2 as int], lm.act.eval_derivative(nm.ov));
                        proof {
                            assert(di as int == dig);
                        }
                        let ghost wsg = nm.ws;
                        let ghost t_pre = ints(temp@);
                        let wn2 = h.weights.len();
                        proof {
                            assert(wsg == ints(h.weights@));
                            assert(wn2 == pl2);
                        }
                        let mut new_ws: Vec<i64> = Vec::new();
                        let mut t: usize = 0;
                        while t < wn2
                            invariant
                                0 <= t <= wn2,
                                wn2 == wsg.len(),
                                wsg == ints(h.weights@),
                                forall|w: int| 0 <= w < wsg.len() ==> in_range(#[trigger] wsg[w]),
                                temp@.len() == pl2,
                                wn2 == pl2,
                                prev2@.len() == pl2,
                                ints(prev2@) == prevv,
                                t_pre.len() == pl2,
                                forall|idx: int| 0 <= idx < t_pre.len() ==> in_range(
                                    #[trigger] t_pre[idx],
                                ),
                                di as int == dig,
                                0 <= learning_rate <= SCALE,
                                lrg == learning_rate as int,
                                forall|idx: int|
                                    0 <= idx < t ==> #[trigger] temp@[idx] as int == add_spec(
                                        t_pre[idx],
                                        mul_spec(dig, wsg[idx]),
                                    ),
                                forall|idx: int|
                                    t <= idx < pl2 ==> #[trigger] temp@[idx] as int == t_pre[idx],
                                forall|idx: int| 0 <= idx < temp@.len() ==> in_range(
                                    #[trigger] temp@[idx] as int,
                                ),
                                new_ws@.len() == t,
                                forall|idx: int|
                                    0 <= idx < t ==> #[trigger] new_ws@[idx] as int == sub_spec(
                                        wsg[idx],
                                        mul_spec(mul_spec(lrg, dig), prevv[idx]),
                                    ),
                            decreases wn2 - t,
                        {
                            let w = h.weights[t];
                            proof {
                                assert(wsg[t as int] == w as int);
                                assert(prevv[t as int] == prev2@[t as int] as int);
                            }
                            let cur = temp[t];
                            let nd = sat_add(cur, fix_mul(di, w));
                            temp[t] = nd;
                            let upd = fix_mul(fix_mul(learning_rate, di), prev2[t]);
                            new_ws.push(sat_sub(w, upd));
                            t = t + 1;
                        }
                        proof {
                            assert(ints(temp@) =~= acc_deltas(t_pre, dig, wsg));
                            assert(ints(new_ws@) =~= upd_weights(wsg, dig, lrg, prevv));
                        }
                        let iv_keep = h.input_value;
                        let ov_keep = h.output_value;
                        new_ns.push(
                            Neuron::Hidden(
                                Hidden {
                                    input_value: iv_keep,
                                    output_value: ov_keep,
                                    weights: new_ws,
                                },
                            ),
                        );
                        proof {
                            let s_new = hid_stage(lm, dg, prevv, lrg, i2 + 1);
                            let s_old = hid_stage(lm, dg, prevv, lrg, i2 as int);
                            assert(nm.kind == NeuronKind::Hidden);
                            assert(s_new.0 == acc_deltas(s_old.0, dig, nm.ws));
                            assert(s_new.1 == s_old.1.push(
                                NeuronModel {
                                    kind: nm.kind,
                                    iv: nm.iv,
                                    ov: nm.ov,
                                    ws: upd_weights(nm.ws, dig, lrg, prevv),
                                },
                            ));
                        }
                    },
                    Neuron::Bias(b) => {
                        let bv = b.output_value;
                        new_ns.push(Neuron::Bias(Bias { output_value: bv }));
                        proof {
                            assert(nm.kind == NeuronKind::Bias);
                            let s_new = hid_stage(lm, dg, prevv, lrg, i2 + 1);
                            let s_old = hid_stage(lm, dg, prevv, lrg, i2 as int);
                            assert(s_new.0 == s_old.0);
                            assert(s_new.1 == s_old.1.push(nm));
                        }
                    },
                    _ => {
                        proof {
                            assert(false);
                        }
                    },
                }
                i2 = i2 + 1;
            }
            let ghost s_fin = hid_stage(lm, dg, prevv, lrg, ln as int);
            let ghost newlm = LayerModel { ns: s_fin.1, act: lm.act, bias: lm.bias };
            proof {
                lemma_hid_stage_props(lm, dg, prevv, lrg, ln as int);
                assert forall|t: int| 0 <= t < nmodels(new_ns@).len() implies #[trigger] nmodels(
                    new_ns@,
                )[t] == s_fin.1[t] by {
                    assert(new_ns@[t]@ == s_fin.1[t]);
                }
                assert(nmodels(new_ns@) =~= s_fin.1);
            }
            let lref = &mut self.hidden_layer[k2];
            lref.neurons = new_ns;
            proof {
                assert(self.hidden_layer@[k2 as int]@ == newlm);
                let hsub = m0.hidden.subrange(0, k2 + 1);
                assert(hsub[k2 as int] == lm);
                assert(hsub.len() == k2 + 1);
                if k2 > 0 {
                    assert(hsub[k2 - 1] == m0.hidden[k2 - 1]);
                }
                assert((if k2 == 0 {
                    iv0
                } else {
                    ovs(hsub[k2 - 1].ns)
                }) == prevv);
                assert(backward_hiddens(hsub, dg, iv0, lrg) == backward_hiddens(
                    hsub.subrange(0, k2 as int),
                    s_fin.0,
                    iv0,
                    lrg,
                ).push(newlm));
                assert(hsub.subrange(0, k2 as int) =~= m0.hidden.subrange(0, k2 as int));
                assert(backward_hiddens(hsub, dg, iv0, lrg) == bh.subrange(0, k2 + 1));
                assert(bh.subrange(0, k2 + 1).len() == k2 + 1);
                assert(bh[k2 as int] == bh.subrange(0, k2 + 1)[k2 as int]);
                assert(bh[k2 as int] == newlm);
                assert(backward_hiddens(m0.hidden.subrange(0, k2 as int), s_fin.0, iv0, lrg)
                    =~= bh.subrange(0, k2 as int));
                assert(ints(temp@) == s_fin.0);
                if k2 >= 1 {
                    assert(s_fin.0.len() == prevv.len());
                    assert(prevv.len() == m0.hidden[k2 - 1].ns.len());
                }
            }
            deltas = temp;
        }
        proof {
            assert forall|jx: int| 0 <= jx < n implies #[trigger] hmodels(self.hidden_layer@)[jx]
                == bh[jx] by {
                assert(self.hidden_layer@[jx]@ == bh[jx]);
            }
            assert(hmodels(self.hidden_layer@) =~= bh);
            assert(self@ == backward_model(m0, e, lrg).0);
            lemma_out_stage_err(m0.output, e, pv, lrg, on as int);
            lemma_backward_net_wf(m0, e, lrg);
        }
        err
    }
}


/// A repeated forward step over one layer with the same feeding values
/// recomputes exactly the same layer.
pub proof fn lemma_layer_forward_idem(vals: Seq<int>, l: LayerModel)
    ensures
        layer_forward(vals, layer_forward(vals, l)) == layer_forward(vals, l),
{
    let f1 = layer_forward(vals, l);
    let f2 = layer_forward(vals, f1);
    assert forall|i: int| 0 <= i < f2.ns.len() implies #[trigger] f2.ns[i] == f1.ns[i] by {
        assert(f1.ns[i] == neuron_forward(vals, l.ns[i], l.act));
    }
    assert(f2.ns =~= f1.ns);
}

/// A repeated forward pass over the hidden run with the same inputs
/// recomputes exactly the same run.
pub proof fn lemma_forward_hiddens_idem(vals: Seq<int>, hs: Seq<LayerModel>)
    ensures
        forward_hiddens(vals, forward_hiddens(vals, hs)) == forward_hiddens(vals, hs),
    decreases hs.len(),
{
    if hs.len() > 0 {
        let h0 = layer_forward(vals, hs[0]);
        let tail = hs.subrange(1, hs.len() as int);
        let rest = forward_hiddens(ovs(h0.ns), tail);
        let fh = forward_hiddens(vals, hs);
        assert(fh == seq![h0] + rest);
        lemma_layer_forward_idem(vals, hs[0]);
        assert(fh[0] == h0);
        assert(layer_forward(vals, fh[0]) == h0);
        assert(fh.len() == 1 + rest.len());
        assert(fh.subrange(1, fh.len() as int) =~= rest);
        lemma_forward_hiddens_idem(ovs(h0.ns), tail);
        assert(forward_hiddens(ovs(h0.ns), rest) == rest);
        assert(forward_hiddens(vals, fh) == seq![h0] + forward_hiddens(
            ovs(h0.ns),
            fh.subrange(1, fh.len() as int),
        ));
        assert(forward_hiddens(vals, fh) =~= fh);
    }
}

/// The forward pass is idempotent: with no intervening change of inputs
/// or weights, running it a second time leaves every neuron — its
/// accumulator and its activated output — exactly as the first run did.
pub proof fn lemma_forward_idempotent(m: NetModel)
    ensures
        forward_model(forward_model(m)) == forward_model(m),
{
    let m1 = forward_model(m);
    let v0 = ovs(m.input.ns);
    let fh = forward_hiddens(v0, m.hidden);
    lemma_forward_hiddens_idem(v0, m.hidden);
    assert(m1.input == m.input);
    assert(m1.hidden == fh);
    assert(forward_hiddens(v0, m1.hidden) == fh);
    let m2 = forward_model(m1);
    assert(m2.hidden == fh);
    if fh.len() == 0 {
        lemma_layer_forward_idem(v0, m.output);
    } else {
        let lastvals = ovs(fh.last().ns);
        lemma_layer_forward_idem(lastvals, m.output);
    }
    assert(m2 == m1);
}

/// A bias neuron's output is invariant under the forward pass: it is
/// left exactly as it was, holding the constant `1.0`.
pub proof fn lemma_forward_bias_invariant(m: NetModel, k: int, i: int)
    requires
        wf_net(m),
        0 <= k < m.hidden.len(),
        0 <= i < m.hidden[k].ns.len(),
        m.hidden[k].ns[i].kind == NeuronKind::Bias,
    ensures
        forward_model(m).hidden[k].ns[i] == m.hidden[k].ns[i],
        forward_model(m).hidden[k].ns[i].ov == SCALE,
{
    assert forall|kx: int|
        0 <= kx < m.hidden.len() implies wf_hidden_layer(
        #[trigger] m.hidden[kx],
        hidden_fanin_at(m.hidden, m.input.ns.len(), kx),
    ) by {
        assert(wf_hidden_layer(m.hidden[kx], fanin_at(m, kx)));
    }
    lemma_forward_hiddens_props(ovs(m.input.ns), m.hidden, m.input.ns.len());
    assert(wf_neuron(
        m.hidden[k].ns[i],
        if m.hidden[k].bias && i == m.hidden[k].ns.len() - 1 {
            NeuronKind::Bias
        } else {
            NeuronKind::Hidden
        },
        fanin_at(m, k),
    ));
}

/// A bias neuron's output is invariant under the backward pass as well:
/// it owns no weights, receives no update, and keeps the constant `1.0`.
pub proof fn lemma_backward_bias_invariant(
    m: NetModel,
    expected: Seq<int>,
    lr: int,
    k: int,
    i: int,
)
    requires
        wf_net(m),
        0 <= k < m.hidden.len(),
        0 <= i < m.hidden[k].ns.len(),
        m.hidden[k].ns[i].kind == NeuronKind::Bias,
    ensures
        backward_model(m, expected, lr).0.hidden[k].ns[i] == m.hidden[k].ns[i],
        backward_model(m, expected, lr).0.hidden[k].ns[i].ov == SCALE,
{
    assert forall|kx: int|
        0 <= kx < m.hidden.len() implies wf_hidden_layer(
        #[trigger] m.hidden[kx],
        hidden_fanin_at(m.hidden, m.input.ns.len(), kx),
    ) by {
        assert(wf_hidden_layer(m.hidden[kx], fanin_at(m, kx)));
    }
    let prev = ovs(m.hidden.last().ns);
    let s = out_stage(m.output, expected, prev, lr, m.output.ns.len() as int);
    lemma_backward_hiddens_props(m.hidden, s.0, ovs(m.input.ns), lr, m.input.ns.len());
    assert(wf_neuron(
        m.hidden[k].ns[i],
        if m.hidden[k].bias && i == m.hidden[k].ns.len() - 1 {
            NeuronKind::Bias
        } else {
            NeuronKind::Hidden
        },
        fanin_at(m, k),
    ));
}


/// One gradient step on one weight never moves along the gradient: when
/// the delta and the feeding output agree in sign the weight can only
/// fall, and when they disagree it can only rise.
pub proof fn lemma_upd_weights_direction(ws: Seq<int>, dj: int, lr: int, prev: Seq<int>, k: int)
    requires
        0 <= k < ws.len(),
        in_range(ws[k]),
        0 <= lr,
    ensures
        dj * prev[k] >= 0 ==> upd_weights(ws, dj, lr, prev)[k] <= ws[k],
        dj * prev[k] <= 0 ==> upd_weights(ws, dj, lr, prev)[k] >= ws[k],
{
    let m = mul_spec(lr, dj);
    let pk = prev[k];
    let step = mul_spec(m, pk);
    crate::fixed::lemma_mul_spec_sign(lr, dj);
    crate::fixed::lemma_mul_spec_sign(m, pk);
    crate::fixed::lemma_sub_spec_direction(ws[k], step);
    vstd::arithmetic::div_mod::lemma_div_of0(SCALE as int);
    if dj == 0 {
        assert(lr * dj == 0) by (nonlinear_arith)
            requires
                dj == 0,
        ;
        assert(m == 0);
    } else if dj > 0 {
        assert(lr * dj >= 0) by (nonlinear_arith)
            requires
                lr >= 0,
                dj >= 0,
        ;
    } else {
        assert(lr * dj <= 0) by (nonlinear_arith)
            requires
                lr >= 0,
                dj <= 0,
        ;
    }
    if pk == 0 {
        assert(m * pk == 0) by (nonlinear_arith)
            requires
                pk == 0,
        ;
        assert(step == 0);
    } else if pk > 0 {
        if dj * pk >= 0 {
            assert(dj >= 0) by (nonlinear_arith)
                requires
                    dj * pk >= 0,
                    pk > 0,
            ;
            assert(m * pk >= 0) by (nonlinear_arith)
                requires
                    m >= 0,
                    pk > 0,
            ;
        }
        if dj * pk <= 0 {
            assert(dj <= 0) by (nonlinear_arith)
                requires
                    dj * pk <= 0,
                    pk > 0,
            ;
            assert(m * pk <= 0) by (nonlinear_arith)
                requires
                    m <= 0,
                    pk > 0,
            ;
        }
    } else {
        if dj * pk >= 0 {
            assert(dj <= 0) by (nonlinear_arith)
                requires
                    dj * pk >= 0,
                    pk < 0,
            ;
            assert(m * pk >= 0) by (nonlinear_arith)
                requires
                    m <= 0,
                    pk < 0,
            ;
        }
        if dj * pk <= 0 {
            assert(dj >= 0) by (nonlinear_arith)
                requires
                    dj * pk <= 0,
                    pk < 0,
            ;
            assert(m * pk <= 0) by (nonlinear_arith)
                requires
                    m >= 0,
                    pk < 0,
            ;
        }
    }
}

/// Gradient-descent direction at a hidden layer: in its backward step,
/// each hidden weight moves against the sign of its gradient component —
/// the neuron's delta times the feeding output it weights — and never
/// along it.
pub proof fn lemma_hidden_step_direction(
    l: LayerModel,
    d: Seq<int>,
    prev: Seq<int>,
    lr: int,
    fanin: nat,
    i: int,
    t: int,
)
    requires
        wf_neurons(l.ns, NeuronKind::Hidden, l.bias, fanin),
        0 <= lr,
        0 <= i < l.ns.len(),
        l.ns[i].kind == NeuronKind::Hidden,
        0 <= t < l.ns[i].ws.len(),
    ensures
        ({
            let di = mul_spec(d[i], l.act.eval_derivative(l.ns[i].ov));
            let neww = hid_stage(l, d, prev, lr, l.ns.len() as int).1[i].ws[t];
            &&& (di * prev[t] >= 0 ==> neww <= l.ns[i].ws[t])
            &&& (di * prev[t] <= 0 ==> neww >= l.ns[i].ws[t])
        }),
{
    lemma_hid_stage_props(l, d, prev, lr, l.ns.len() as int);
    assert(wf_neuron(
        l.ns[i],
        if l.bias && i == l.ns.len() - 1 {
            NeuronKind::Bias
        } else {
            NeuronKind::Hidden
        },
        fanin,
    ));
    lemma_upd_weights_direction(
        l.ns[i].ws,
        mul_spec(d[i], l.act.eval_derivative(l.ns[i].ov)),
        lr,
        prev,
        t,
    );
}

/// Gradient-descent direction at the output layer: after one backward
/// pass, each output weight has moved against the sign of its gradient
/// component — the neuron's delta times the hidden output it weights —
/// and never along it.
pub proof fn lemma_gradient_step_direction(
    m: NetModel,
    expected: Seq<int>,
    lr: int,
    j: int,
    k: int,
)
    requires
        wf_net(m),
        0 <= lr,
        0 <= j < m.output.ns.len(),
        0 <= k < m.output.ns[j].ws.len(),
    ensures
        ({
            let dj = out_delta(m.output.ns[j], expected[j], m.output.act);
            let prev = ovs(m.hidden.last().ns);
            let neww = backward_model(m, expected, lr).0.output.ns[j].ws[k];
            &&& (dj * prev[k] >= 0 ==> neww <= m.output.ns[j].ws[k])
            &&& (dj * prev[k] <= 0 ==> neww >= m.output.ns[j].ws[k])
        }),
{
    let prev = ovs(m.hidden.last().ns);
    lemma_out_stage_props(m.output, expected, prev, lr, m.output.ns.len() as int);
    assert(wf_neuron(m.output.ns[j], NeuronKind::Output, m.hidden.last().ns.len()));
    lemma_upd_weights_direction(
        m.output.ns[j].ws,
        out_delta(m.output.ns[j], expected[j], m.output.act),
        lr,
        prev,
        k,
    );
}

} // verus!
