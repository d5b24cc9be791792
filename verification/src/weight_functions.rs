//! Weight initialisation: fresh weight vectors of a requested fan-in,
//! either Xavier-uniform samples from `[-1/sqrt(fan_in), 1/sqrt(fan_in)]`
//! or a zero fill.

use vstd::prelude::*;

use rand::Rng;

use crate::fixed::SCALE;

verus! {

/// Relies on `rand::Rng::gen_range` on `rand::thread_rng()` over an
/// inclusive range: returns a sample lying within the closed range; the
/// call panics on an empty range, so one is ruled out here.
#[verifier::external_body]
fn rand_in_range(lo: i64, hi: i64) -> (r: i64)
    requires
        lo <= hi,
    ensures
        lo <= r <= hi,
{
    rand::thread_rng().gen_range(lo..=hi)
}

proof fn lemma_sqrt_below(a: int, m: int, b: int)
    by (nonlinear_arith)
    requires
        0 <= a,
        0 < b,
        a * a <= m,
        m < b * b,
    ensures
        a < b,
{
}

/// Integer square root, used to size the Xavier sampling interval.
fn isqrt(n: u32) -> (r: u32)
    ensures
        r * r <= n < (r + 1) * (r + 1),
        r <= 65535,
{
    let mut r: u32 = 0;
    let mut done: bool = false;
    while !done
        invariant
            r * r <= n,
            r <= 65535,
            done ==> n < (r + 1) * (r + 1),
        decreases (if done { 0int } else { 1int }), 65536 - r,
    {
        assert(((r as int) + 1) * ((r as int) + 1) <= 65536 * 65536) by (nonlinear_arith)
            requires
                r <= 65535,
        ;
        let next = ((r as u64) + 1) * ((r as u64) + 1);
        if next <= n as u64 {
            proof {
                lemma_sqrt_below((r + 1) as int, n as int, 65536);
            }
            r = r + 1;
        } else {
            done = true;
        }
    }
    r
}

/// A fresh weight vector of length `fan_in`, each entry drawn uniformly
/// from `[-1/sqrt(fan_in), 1/sqrt(fan_in)]`; empty when `fan_in` is zero.
pub fn xavier_init(fan_in: u32) -> (r: Vec<i64>)
    ensures
        r@.len() == fan_in,
        forall|i: int| 0 <= i < r@.len() ==> -SCALE <= #[trigger] r@[i] <= SCALE,
{
    let mut out: Vec<i64> = Vec::new();
    if fan_in == 0 {
        return out;
    }
    let limit: i64 = if fan_in == 1 {
        SCALE
    } else {
        proof {
            assert((SCALE as int) * (SCALE as int) == 0x1_0000_0000) by (nonlinear_arith);
            vstd::arithmetic::div_mod::lemma_div_is_ordered_by_denominator(
                0x1_0000_0000,
                2,
                fan_in as int,
            );
        }
        let t: u64 = ((SCALE as u64) * (SCALE as u64)) / (fan_in as u64);
        isqrt(t as u32) as i64
    };
    assert(0 <= limit <= SCALE);
    let mut i: u32 = 0;
    while i < fan_in
        invariant
            0 <= i <= fan_in,
            0 <= limit <= SCALE,
            out@.len() == i,
            forall|j: int| 0 <= j < out@.len() ==> -SCALE <= #[trigger] out@[j] <= SCALE,
        decreases fan_in - i,
    {
        let w = rand_in_range(-limit, limit);
        out.push(w);
        i = i + 1;
    }
    out
}

/// A zero-filled weight vector of length `fan_in`.
pub fn zero_init(fan_in: u32) -> (r: Vec<i64>)
    ensures
        r@.len() == fan_in,
        forall|i: int| 0 <= i < r@.len() ==> #[trigger] r@[i] == 0,
{
    let mut out: Vec<i64> = Vec::new();
    let mut i: u32 = 0;
    while i < fan_in
        invariant
            0 <= i <= fan_in,
            out@.len() == i,
            forall|j: int| 0 <= j < out@.len() ==> #[trigger] out@[j] == 0,
        decreases fan_in - i,
    {
        out.push(0);
        i = i + 1;
    }
    out
}

/// The weight-initialisation strategies a layer constructor may use.
#[derive(Clone, Copy, Debug, PartialEq, Eq, Structural)]
pub enum WeightInit {
    /// `xavier_init`: Xavier-uniform random samples.
    Xavier,
    /// `zero_init`: a zero fill.
    Zero,
}

impl WeightInit {
    /// Draw a fresh weight vector of the requested fan-in.
    pub fn init(&self, fan_in: u32) -> (r: Vec<i64>)
        ensures
            r@.len() == fan_in,
            forall|i: int| 0 <= i < r@.len() ==> -SCALE <= #[trigger] r@[i] <= SCALE,
            *self == WeightInit::Zero ==> forall|i: int|
                0 <= i < r@.len() ==> #[trigger] r@[i] == 0,
    {
        match self {
            WeightInit::Xavier => xavier_init(fan_in),
            WeightInit::Zero => zero_init(fan_in),
        }
    }
}

} // verus!
