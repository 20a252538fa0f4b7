//! Integer helpers: greatest common divisor and direction matching of lattice vectors.

use vstd::prelude::*;
use vstd::arithmetic::div_mod::{lemma_fundamental_div_mod, lemma_mod_multiples_basic};

verus! {

/// `d` divides `n`. Zero divides only zero.
pub open spec fn divides(d: nat, n: nat) -> bool {
    if d == 0 {
        n == 0
    } else {
        n % d == 0
    }
}

/// The greatest common divisor of `a` and `b`, with `spec_gcd(0, 0) == 0`.
pub open spec fn spec_gcd(a: nat, b: nat) -> nat
    decreases b,
{
    if b == 0 {
        a
    } else {
        spec_gcd(b, a % b)
    }
}

/// A number of the form `x * q + y` or `y - x * q` is a multiple of `d` when `x` and `y` are.
proof fn lemma_divides_combination(d: nat, x: nat, y: nat, q: nat)
    requires
        d > 0,
        divides(d, x),
        divides(d, y),
    ensures
        divides(d, x * q + y),
        y >= x * q ==> divides(d, (y - x * q) as nat),
{
    let kx: int = x as int / d as int;
    let ky: int = y as int / d as int;
    lemma_fundamental_div_mod(x as int, d as int);
    lemma_fundamental_div_mod(y as int, d as int);
    assert(x * q + y == (kx * q + ky) * d) by (nonlinear_arith)
        requires
            x == d * kx,
            y == d * ky,
    ;
    lemma_mod_multiples_basic(kx * q + ky, d as int);
    if y >= x * q {
        assert(y - x * q == (ky - kx * q) * d) by (nonlinear_arith)
            requires
                x == d * kx,
                y == d * ky,
        ;
        lemma_mod_multiples_basic(ky - kx * q, d as int);
    }
}

/// The greatest common divisor divides both of its arguments.
pub proof fn lemma_gcd_divides(a: nat, b: nat)
    ensures
        divides(spec_gcd(a, b), a),
        divides(spec_gcd(a, b), b),
    decreases b,
{
    if b != 0 {
        let g = spec_gcd(b, a % b);
        lemma_gcd_divides(b, a % b);
        lemma_fundamental_div_mod(a as int, b as int);
        lemma_divides_combination(g, b, a % b, a / b);
    }
}

/// Every common divisor of `a` and `b` divides their greatest common divisor.
pub proof fn lemma_gcd_greatest(a: nat, b: nat, d: nat)
    requires
        divides(d, a),
        divides(d, b),
    ensures
        divides(d, spec_gcd(a, b)),
    decreases b,
{
    if b != 0 {
        lemma_fundamental_div_mod(a as int, b as int);
        lemma_divides_combination(d, b, a, a / b);
        lemma_gcd_greatest(b, a % b, d);
    }
}

/// The greatest common divisor of `a` and `b` by Euclid's algorithm: it divides both, and
/// every number that divides both divides it. `gcd(0, 0)` is zero.
pub fn gcd(a: usize, b: usize) -> (g: usize)
    ensures
        g == spec_gcd(a as nat, b as nat),
        divides(g as nat, a as nat),
        divides(g as nat, b as nat),
        forall|d: nat|
            divides(d, a as nat) && divides(d, b as nat) ==> #[trigger] divides(d, g as nat),
{
    let mut x: usize = a;
    let mut y: usize = b;
    while y != 0
        invariant
            spec_gcd(x as nat, y as nat) == spec_gcd(a as nat, b as nat),
        decreases y,
    {
        let temp: usize = y;
        y = x % y;
        x = temp;
    }
    proof {
        lemma_gcd_divides(a as nat, b as nat);
        assert forall|d: nat| divides(d, a as nat) && divides(d, b as nat) implies #[trigger] divides(
            d,
            x as nat,
        ) by {
            lemma_gcd_greatest(a as nat, b as nat, d);
        }
    }
    x
}

/// Two lattice vectors point the same way: they are parallel and their dot product is
/// positive, which is the case exactly when the angle between them is zero. Neither can
/// be the zero vector.
pub open spec fn same_direction(a: (int, int), b: (int, int)) -> bool {
    &&& a.0 * b.1 - a.1 * b.0 == 0
    &&& a.0 * b.0 + a.1 * b.1 > 0
}

/// The cosine of the angle between two nonzero vectors is at least `1 - 10^-9`, written
/// without division or square root: `dot / (|a| |b|) >= 1 - 10^-9` holds exactly when
/// `dot > 0` and `10^18 * dot^2 >= (10^9 - 1)^2 * |a|^2 * |b|^2`. As a cosine never
/// exceeds one, this is the same as its lying within `10^-9` of one.
pub open spec fn cosine_within_tolerance(a: (int, int), b: (int, int)) -> bool {
    let dot = a.0 * b.0 + a.1 * b.1;
    let norm_a = a.0 * a.0 + a.1 * a.1;
    let norm_b = b.0 * b.0 + b.1 * b.1;
    &&& norm_a > 0
    &&& norm_b > 0
    &&& dot > 0
    &&& 1_000_000_000 * 1_000_000_000 * (dot * dot) >= 999_999_999 * 999_999_999 * (norm_a
        * norm_b)
}

/// Lagrange's identity in the plane: `|a|^2 |b|^2 == (a . b)^2 + (a x b)^2`.
proof fn lemma_lagrange_identity(a0: int, a1: int, b0: int, b1: int)
    ensures
        (a0 * a0 + a1 * a1) * (b0 * b0 + b1 * b1) == (a0 * b0 + a1 * b1) * (a0 * b0 + a1 * b1) + (
        a0 * b1 - a1 * b0) * (a0 * b1 - a1 * b0),
{
    let p = a0 * b0;
    let q = a1 * b1;
    let r = a0 * b1;
    let s = a1 * b0;
    assert(p * p == (a0 * a0) * (b0 * b0)) by (nonlinear_arith)
        requires
            p == a0 * b0,
    ;
    assert(q * q == (a1 * a1) * (b1 * b1)) by (nonlinear_arith)
        requires
            q == a1 * b1,
    ;
    assert(r * r == (a0 * a0) * (b1 * b1)) by (nonlinear_arith)
        requires
            r == a0 * b1,
    ;
    assert(s * s == (a1 * a1) * (b0 * b0)) by (nonlinear_arith)
        requires
            s == a1 * b0,
    ;
    assert(p * q == r * s) by (nonlinear_arith)
        requires
            p == a0 * b0,
            q == a1 * b1,
            r == a0 * b1,
            s == a1 * b0,
    ;
    assert((p + q) * (p + q) == p * p + 2 * (p * q) + q * q) by (nonlinear_arith);
    assert((r - s) * (r - s) == r * r - 2 * (r * s) + s * s) by (nonlinear_arith);
    let x0 = a0 * a0;
    let x1 = a1 * a1;
    let y0 = b0 * b0;
    let y1 = b1 * b1;
    assert((x0 + x1) * (y0 + y1) == x0 * y0 + x0 * y1 + x1 * y0 + x1 * y1) by (nonlinear_arith);
}

/// On vectors whose components lie within a hundred of zero, a cosine within `10^-9` of
/// one means a cosine of exactly one: comparing with a tolerance and comparing exactly
/// accept the same pairs. Every displacement on an 8×8 board is such a vector.
pub proof fn lemma_tolerance_is_exact_on_short_vectors(a: (int, int), b: (int, int))
    requires
        -100 <= a.0 <= 100,
        -100 <= a.1 <= 100,
        -100 <= b.0 <= 100,
        -100 <= b.1 <= 100,
    ensures
        cosine_within_tolerance(a, b) == same_direction(a, b),
{
    let dot = a.0 * b.0 + a.1 * b.1;
    let cross = a.0 * b.1 - a.1 * b.0;
    let norm_a = a.0 * a.0 + a.1 * a.1;
    let norm_b = b.0 * b.0 + b.1 * b.1;
    lemma_lagrange_identity(a.0, a.1, b.0, b.1);
    assert(dot * dot >= 0) by (nonlinear_arith);
    assert(cross * cross >= 0) by (nonlinear_arith);
    assert(cross != 0 ==> cross * cross >= 1) by (nonlinear_arith);
    assert(dot * dot <= 400_000_000) by (nonlinear_arith)
        requires
            dot == a.0 * b.0 + a.1 * b.1,
            -100 <= a.0 <= 100,
            -100 <= a.1 <= 100,
            -100 <= b.0 <= 100,
            -100 <= b.1 <= 100,
    ;
    assert(norm_a >= 0 && norm_b >= 0) by (nonlinear_arith)
        requires
            norm_a == a.0 * a.0 + a.1 * a.1,
            norm_b == b.0 * b.0 + b.1 * b.1,
    ;
    assert(cross == 0 ==> cross * cross == 0) by (nonlinear_arith);
    if dot > 0 {
        assert(norm_a != 0 && norm_b != 0) by (nonlinear_arith)
            requires
                dot > 0,
                dot == a.0 * b.0 + a.1 * b.1,
                norm_a == a.0 * a.0 + a.1 * a.1,
                norm_b == b.0 * b.0 + b.1 * b.1,
        ;
    }
    let dd = dot * dot;
    let nn = norm_a * norm_b;
    assert(nn == dd + cross * cross);
    assert(1_000_000_000 * 1_000_000_000 * dd == 1_000_000_000_000_000_000 * dd);
    assert(999_999_999 * 999_999_999 * nn == 999_999_998_000_000_001 * nn);
}

/// Whether `move_vec` points the same way as `capability`, whatever their lengths: whether
/// the cosine of the angle between them is one. The answer is found in integers and is
/// exact for every pair of vectors; a zero vector points no way at all. Where the cosine
/// is computed in floating point and compared with one up to a tolerance of `10^-9`, the
/// same pairs are accepted as long as the vectors are short, as
/// [`lemma_tolerance_is_exact_on_short_vectors`] shows.
pub fn vectors_same_direction(capability: &(i32, i32), move_vec: &(i32, i32)) -> (same: bool)
    ensures
        same == same_direction(
            (capability.0 as int, capability.1 as int),
            (move_vec.0 as int, move_vec.1 as int),
        ),
{
    let ax: i128 = capability.0 as i128;
    let ay: i128 = capability.1 as i128;
    let bx: i128 = move_vec.0 as i128;
    let by: i128 = move_vec.1 as i128;
    assert(-0x4000_0000_0000_0000 <= ax * by <= 0x4000_0000_0000_0000) by (nonlinear_arith)
        requires
            -0x8000_0000 <= ax <= 0x8000_0000,
            -0x8000_0000 <= by <= 0x8000_0000,
    ;
    assert(-0x4000_0000_0000_0000 <= ay * bx <= 0x4000_0000_0000_0000) by (nonlinear_arith)
        requires
            -0x8000_0000 <= ay <= 0x8000_0000,
            -0x8000_0000 <= bx <= 0x8000_0000,
    ;
    assert(-0x4000_0000_0000_0000 <= ax * bx <= 0x4000_0000_0000_0000) by (nonlinear_arith)
        requires
            -0x8000_0000 <= ax <= 0x8000_0000,
            -0x8000_0000 <= bx <= 0x8000_0000,
    ;
    assert(-0x4000_0000_0000_0000 <= ay * by <= 0x4000_0000_0000_0000) by (nonlinear_arith)
        requires
            -0x8000_0000 <= ay <= 0x8000_0000,
            -0x8000_0000 <= by <= 0x8000_0000,
    ;
    let cross: i128 = ax * by - ay * bx;
    let dot: i128 = ax * bx + ay * by;
    cross == 0 && dot > 0
}

} // verus!
