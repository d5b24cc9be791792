//! The engine's scalar arithmetic: signed fixed-point numbers stored in
//! `i64`, where a stored value `v` stands for the real number `v / SCALE`.
//! Every operation saturates at `±VMAX`, so each result is again a valid
//! stored scalar and no intermediate computation can overflow.

use vstd::prelude::*;

verus! {

/// Number of fixed-point units that stand for 1.0.
pub const SCALE: i64 = 65536;

/// The representation of 0.5.
pub const HALF: i64 = 32768;

/// Largest magnitude a stored scalar may take; arithmetic saturates here.
/// (`VMAX == 1 << 40`, about sixteen million in real terms.)
pub const VMAX: i64 = 1099511627776;

/// Largest number of neurons one layer may hold; keeps every dot-product
/// accumulator comfortably inside `i128`.
pub const MAX_NEURONS: usize = 65536;

/// A value the engine may store.
pub open spec fn in_range(x: int) -> bool {
    -VMAX <= x <= VMAX
}

/// Division by a positive divisor rounding toward zero, as the underlying
/// machine division of magnitudes does.
pub open spec fn tdiv(x: int, d: int) -> int {
    if x >= 0 {
        x / d
    } else {
        -((-x) / d)
    }
}

/// Saturation into the stored-scalar range.
pub open spec fn clamp_spec(x: int) -> int {
    if x > VMAX {
        VMAX as int
    } else if x < -VMAX {
        -(VMAX as int)
    } else {
        x
    }
}

/// Saturating sum of two stored scalars.
pub open spec fn add_spec(a: int, b: int) -> int {
    clamp_spec(a + b)
}

/// Saturating difference of two stored scalars.
pub open spec fn sub_spec(a: int, b: int) -> int {
    clamp_spec(a - b)
}

/// The scalar product: `a * b` rescaled and saturated.
pub open spec fn mul_spec(a: int, b: int) -> int {
    clamp_spec(tdiv(a * b, SCALE as int))
}

/// The stored values of a vector, as mathematical integers.
pub open spec fn ints(s: Seq<i64>) -> Seq<int> {
    s.map_values(|x: i64| x as int)
}

/// Exact sum of the first `n` pairwise products.
pub open spec fn dot_raw(a: Seq<int>, b: Seq<int>, n: int) -> int
    decreases n,
{
    if n <= 0 {
        0
    } else {
        dot_raw(a, b, n - 1) + a[n - 1] * b[n - 1]
    }
}

/// The engine's dot product: the exact sum of products, rescaled once at
/// the end and saturated.
pub open spec fn dot_spec(a: Seq<int>, b: Seq<int>) -> int {
    clamp_spec(tdiv(dot_raw(a, b, a.len() as int), SCALE as int))
}

/// Half the square of a difference, rescaled and saturated: the error
/// one output neuron contributes.
pub open spec fn half_sq(d: int) -> int {
    clamp_spec(tdiv(d * d, 2 * (SCALE as int)))
}

proof fn lemma_mul_mag(a: int, b: int, m: int, n: int)
    by (nonlinear_arith)
    requires
        -m <= a <= m,
        -n <= b <= n,
        0 <= m,
        0 <= n,
    ensures
        -(m * n) <= a * b <= m * n,
{
}

/// Saturate a wide intermediate into the stored-scalar range.
fn clamp_i128(x: i128) -> (r: i64)
    ensures
        r == clamp_spec(x as int),
{
    if x > VMAX as i128 {
        VMAX
    } else if x < -(VMAX as i128) {
        -VMAX
    } else {
        x as i64
    }
}

/// Truncating division of a wide intermediate by `SCALE`.
fn div_scale_i128(x: i128) -> (r: i128)
    requires
        x != i128::MIN,
    ensures
        r == tdiv(x as int, SCALE as int),
{
    if x >= 0 {
        (((x as u128) / (SCALE as u128)) as i128)
    } else {
        let m: u128 = ((-x) as u128) / (SCALE as u128);
        assert(m <= (-(x as int)));
        -(m as i128)
    }
}

/// Saturating addition of two stored scalars.
pub fn sat_add(a: i64, b: i64) -> (r: i64)
    requires
        in_range(a as int),
        in_range(b as int),
    ensures
        r == add_spec(a as int, b as int),
        in_range(r as int),
{
    let s: i64 = a + b;
    if s > VMAX {
        VMAX
    } else if s < -VMAX {
        -VMAX
    } else {
        s
    }
}

/// Saturating subtraction of two stored scalars.
pub fn sat_sub(a: i64, b: i64) -> (r: i64)
    requires
        in_range(a as int),
        in_range(b as int),
    ensures
        r == sub_spec(a as int, b as int),
        in_range(r as int),
{
    let s: i64 = a - b;
    if s > VMAX {
        VMAX
    } else if s < -VMAX {
        -VMAX
    } else {
        s
    }
}

/// The scalar product of any two `i64` values, rescaled and saturated.
pub fn fix_mul(a: i64, b: i64) -> (r: i64)
    ensures
        r == mul_spec(a as int, b as int),
        in_range(r as int),
{
    proof {
        lemma_mul_mag(a as int, b as int, 0x8000_0000_0000_0000, 0x8000_0000_0000_0000);
    }
    let p: i128 = (a as i128) * (b as i128);
    let q = div_scale_i128(p);
    clamp_i128(q)
}

/// Truncating division of a stored scalar by a small positive constant.
pub fn div_trunc(x: i64, d: i64) -> (r: i64)
    requires
        d >= 1,
        x != i64::MIN,
    ensures
        r == tdiv(x as int, d as int),
{
    if x >= 0 {
        ((x as u64) / (d as u64)) as i64
    } else {
        let m: u64 = ((-x) as u64) / (d as u64);
        assert(m <= (-(x as int)));
        -(m as i64)
    }
}

/// Half the square of a difference of stored scalars.
pub fn half_square(d: i64) -> (r: i64)
    requires
        -2 * VMAX <= d <= 2 * VMAX,
    ensures
        r == half_sq(d as int),
        in_range(r as int),
{
    proof {
        lemma_mul_mag(d as int, d as int, 0x200_0000_0000, 0x200_0000_0000);
        assert(d * d >= 0) by (nonlinear_arith);
    }
    let p: i128 = (d as i128) * (d as i128);
    let q: u128 = (p as u128) / (2 * SCALE as u128);
    if q > VMAX as u128 {
        VMAX
    } else {
        q as i64
    }
}

/// The engine's dot product over stored vectors of equal length.
pub fn dot(a: &Vec<i64>, b: &Vec<i64>) -> (r: i64)
    requires
        a@.len() == b@.len(),
        a@.len() <= MAX_NEURONS,
        forall|i: int| 0 <= i < a@.len() ==> in_range(a@[i] as int),
        forall|i: int| 0 <= i < b@.len() ==> in_range(b@[i] as int),
    ensures
        r == dot_spec(ints(a@), ints(b@)),
        in_range(r as int),
{
    let n = a.len();
    let mut acc: i128 = 0;
    let mut i: usize = 0;
    while i < n
        invariant
            n == a@.len(),
            n == b@.len(),
            n <= MAX_NEURONS,
            0 <= i <= n,
            forall|j: int| 0 <= j < a@.len() ==> in_range(a@[j] as int),
            forall|j: int| 0 <= j < b@.len() ==> in_range(b@[j] as int),
            acc == dot_raw(ints(a@), ints(b@), i as int),
            -(i as int) * (VMAX as int) * (VMAX as int) <= acc
                <= (i as int) * (VMAX as int) * (VMAX as int),
        decreases n - i,
    {
        proof {
            lemma_mul_mag(a@[i as int] as int, b@[i as int] as int, VMAX as int, VMAX as int);
            lemma_acc_step(acc as int, i as int, n as int);
        }
        acc = acc + (a[i] as i128) * (b[i] as i128);
        i = i + 1;
    }
    let q = div_scale_i128(acc);
    clamp_i128(q)
}

proof fn lemma_acc_step(acc: int, i: int, n: int)
    by (nonlinear_arith)
    requires
        0 <= i < n,
        n <= 65536,
        -i * (VMAX as int) * (VMAX as int) <= acc <= i * (VMAX as int) * (VMAX as int),
    ensures
        acc + (VMAX as int) * (VMAX as int) <= (i + 1) * (VMAX as int) * (VMAX as int),
        -((i + 1) * (VMAX as int) * (VMAX as int)) <= acc - (VMAX as int) * (VMAX as int),
        (i + 1) * (VMAX as int) * (VMAX as int) < 0x8000_0000_0000_0000_0000_0000_0000_0000,
{
}


/// The rescaled product keeps the sign of the exact product.
pub proof fn lemma_mul_spec_sign(a: int, b: int)
    ensures
        a * b >= 0 ==> mul_spec(a, b) >= 0,
        a * b <= 0 ==> mul_spec(a, b) <= 0,
{
    if a * b >= 0 {
        assert(tdiv(a * b, SCALE as int) >= 0) by {
            if a * b >= 0 {
                vstd::arithmetic::div_mod::lemma_div_pos_is_pos(a * b, SCALE as int);
            }
        }
    } else {
        assert(tdiv(a * b, SCALE as int) <= 0) by {
            vstd::arithmetic::div_mod::lemma_div_pos_is_pos(-(a * b), SCALE as int);
        }
    }
}

/// Subtracting a non-negative step never raises a stored scalar, and
/// subtracting a non-positive one never lowers it.
pub proof fn lemma_sub_spec_direction(w: int, u: int)
    requires
        in_range(w),
    ensures
        u >= 0 ==> sub_spec(w, u) <= w,
        u <= 0 ==> sub_spec(w, u) >= w,
{
}

} // verus!
