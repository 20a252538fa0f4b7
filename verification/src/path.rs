//! The path tracer: the cells that lie on the straight line from a cell along a
//! displacement.

use vstd::prelude::*;
use vstd::arithmetic::div_mod::{
    lemma_fundamental_div_mod,
    lemma_fundamental_div_mod_converse_div,
    lemma_small_mod,
};

use crate::location::{on_board, LocationCoords};
use crate::piece::magnitude;
use crate::utils::{divides, gcd, lemma_gcd_divides, spec_gcd};

verus! {

/// Which end of the line belongs to a path.
#[derive(Clone, Copy, Debug, PartialEq, Eq, Structural)]
pub enum GatherPointsMode {
    /// Only the cells strictly between the two ends.
    Exclusive,
    /// The cells between the two ends and the far end.
    Inclusive,
}

/// The displacement that leads from `source` to `dest`.
pub open spec fn displacement(source: LocationCoords, dest: LocationCoords) -> (int, int) {
    (dest.x - source.x, dest.y - source.y)
}

/// The number of primitive steps that make up `v`: the greatest common divisor of the
/// magnitudes of its components, zero for the zero vector.
pub open spec fn step_count(v: (int, int)) -> nat {
    spec_gcd(magnitude(v.0) as nat, magnitude(v.1) as nat)
}

/// The primitive step of `v`: the shortest lattice vector that points the same way.
pub open spec fn unit_step(v: (int, int)) -> (int, int) {
    let g = step_count(v) as int;
    if g == 0 {
        (0, 0)
    } else {
        (v.0 / g, v.1 / g)
    }
}

/// The lattice point `k` steps away from `source`.
pub open spec fn lattice_point(source: LocationCoords, step: (int, int), k: int) -> (int, int) {
    (source.x + k * step.0, source.y + k * step.1)
}

/// Of the lattice points one to `n` steps away from `source`, those on the board, nearest
/// first.
pub open spec fn trace(source: LocationCoords, step: (int, int), n: nat) -> Seq<LocationCoords>
    decreases n,
{
    if n == 0 {
        Seq::empty()
    } else {
        let nearer = trace(source, step, (n - 1) as nat);
        let p = lattice_point(source, step, n as int);
        if on_board(p) {
            nearer.push(LocationCoords::at(p))
        } else {
            nearer
        }
    }
}

/// The cells on the line from `source` along `v`, nearest first: those strictly between
/// `source` and `source + v`, and in inclusive mode `source + v` itself, as far as they
/// lie on the board. The zero vector has no path.
pub open spec fn path_points(source: LocationCoords, v: (int, int), mode: GatherPointsMode) -> Seq<
    LocationCoords,
> {
    let g = step_count(v);
    if g == 0 {
        Seq::empty()
    } else {
        match mode {
            GatherPointsMode::Exclusive => trace(source, unit_step(v), (g - 1) as nat),
            GatherPointsMode::Inclusive => trace(source, unit_step(v), g),
        }
    }
}

/// A divisor of a positive number is positive and no larger than it.
pub proof fn lemma_divisor_bound(d: nat, n: nat)
    requires
        divides(d, n),
        n > 0,
    ensures
        0 < d <= n,
{
    if d > n {
        lemma_small_mod(n, d);
    }
}

/// The step count of a vector that is not zero is positive, it divides the magnitudes of
/// both components, and the primitive step taken that many times gives the vector back.
pub proof fn lemma_unit_step(v: (int, int))
    requires
        v != (0int, 0int),
    ensures
        step_count(v) > 0,
        step_count(v) <= magnitude(v.0) || step_count(v) <= magnitude(v.1),
        divides(step_count(v), magnitude(v.0) as nat),
        divides(step_count(v), magnitude(v.1) as nat),
        step_count(v) * unit_step(v).0 == v.0,
        step_count(v) * unit_step(v).1 == v.1,
        unit_step(v) != (0int, 0int),
        unit_step(v).0 == (if v.0 < 0 {
            -(magnitude(v.0) / step_count(v) as int)
        } else {
            magnitude(v.0) / step_count(v) as int
        }),
        unit_step(v).1 == (if v.1 < 0 {
            -(magnitude(v.1) / step_count(v) as int)
        } else {
            magnitude(v.1) / step_count(v) as int
        }),
{
    let a = magnitude(v.0) as nat;
    let b = magnitude(v.1) as nat;
    let g = step_count(v);
    lemma_gcd_divides(a, b);
    if a > 0 {
        lemma_divisor_bound(g, a);
    } else {
        lemma_divisor_bound(g, b);
    }
    lemma_exact_quotient(v.0, g as int);
    lemma_exact_quotient(v.1, g as int);
}

/// Dividing a multiple of `g` by `g` leaves no remainder, whatever its sign.
proof fn lemma_exact_quotient(n: int, g: int)
    requires
        g > 0,
        magnitude(n) % g == 0,
    ensures
        g * (n / g) == n,
        n / g == (if n < 0 {
            -(magnitude(n) / g)
        } else {
            magnitude(n) / g
        }),
        n != 0 ==> n / g != 0,
{
    let q = magnitude(n) / g;
    lemma_fundamental_div_mod(magnitude(n), g);
    if n < 0 {
        assert(n == (-q) * g + 0) by (nonlinear_arith)
            requires
                -n == g * q,
        ;
        lemma_fundamental_div_mod_converse_div(n, g, -q, 0);
    }
    assert(g * (n / g) == n) by (nonlinear_arith)
        requires
            magnitude(n) == g * q,
            n / g == (if n < 0 {
                -q
            } else {
                q
            }),
            magnitude(n) == (if n < 0 {
                -n
            } else {
                n
            }),
    ;
    if n != 0 && n / g == 0 {
        assert(g * (n / g) == 0) by (nonlinear_arith)
            requires
                n / g == 0,
        ;
    }
}

/// Every cell of a trace is a lattice point on the board, between one and `n` steps from
/// the source.
pub proof fn lemma_trace_members(source: LocationCoords, step: (int, int), n: nat, i: int) -> (k: int)
    requires
        0 <= i < trace(source, step, n).len(),
    ensures
        1 <= k <= n,
        on_board(lattice_point(source, step, k)),
        trace(source, step, n)[i] == LocationCoords::at(lattice_point(source, step, k)),
    decreases n,
{
    let nearer = trace(source, step, (n - 1) as nat);
    if i < nearer.len() {
        lemma_trace_members(source, step, (n - 1) as nat, i)
    } else {
        n as int
    }
}

/// Where every lattice point up to `n` steps away lies on the board, the trace holds them
/// all, one per step.
pub proof fn lemma_trace_on_board(source: LocationCoords, step: (int, int), n: nat)
    requires
        forall|k: int| 1 <= k <= n ==> on_board(#[trigger] lattice_point(source, step, k)),
    ensures
        trace(source, step, n).len() == n,
        forall|i: int|
            0 <= i < n ==> #[trigger] trace(source, step, n)[i] == LocationCoords::at(
                lattice_point(source, step, i + 1),
            ),
    decreases n,
{
    if n > 0 {
        lemma_trace_on_board(source, step, (n - 1) as nat);
    }
}

/// Every cell of a path lies on the board.
pub proof fn lemma_path_in_bounds(source: LocationCoords, v: (int, int), mode: GatherPointsMode)
    ensures
        forall|i: int|
            0 <= i < path_points(source, v, mode).len() ==> (#[trigger] path_points(
                source,
                v,
                mode,
            )[i]).in_bounds(),
{
    let path = path_points(source, v, mode);
    let g = step_count(v);
    assert forall|i: int| 0 <= i < path.len() implies (#[trigger] path[i]).in_bounds() by {
        match mode {
            GatherPointsMode::Exclusive => {
                lemma_trace_members(source, unit_step(v), (g - 1) as nat, i);
            },
            GatherPointsMode::Inclusive => {
                lemma_trace_members(source, unit_step(v), g, i);
            },
        }
    }
}

/// The cells of an exclusive path lie strictly between the two ends of the line: each is
/// the source moved by `k` primitive steps with `0 < k < step_count(v)`, and none is the
/// source or the destination.
pub proof fn lemma_exclusive_path_is_interior(source: LocationCoords, v: (int, int), i: int) -> (k:
    int)
    requires
        0 <= i < path_points(source, v, GatherPointsMode::Exclusive).len(),
    ensures
        0 < k < step_count(v),
        path_points(source, v, GatherPointsMode::Exclusive)[i].point() == lattice_point(
            source,
            unit_step(v),
            k,
        ),
        path_points(source, v, GatherPointsMode::Exclusive)[i].in_bounds(),
        path_points(source, v, GatherPointsMode::Exclusive)[i].point() != source.point(),
        path_points(source, v, GatherPointsMode::Exclusive)[i].point() != (
            source.x + v.0,
            source.y + v.1,
        ),
{
    let g = step_count(v);
    let step = unit_step(v);
    let k = lemma_trace_members(source, step, (g - 1) as nat, i);
    lemma_unit_step(v);
    assert(k * step.0 != 0 || k * step.1 != 0) by (nonlinear_arith)
        requires
            k > 0,
            step != (0int, 0int),
    ;
    assert(k * step.0 != g * step.0 || k * step.1 != g * step.1) by (nonlinear_arith)
        requires
            0 < k < g,
            step != (0int, 0int),
    ;
    k
}

/// The displacement from one cell to another, where both coordinates fit the result.
pub fn get_move_vector(source: &LocationCoords, dest: &LocationCoords) -> (v: (i32, i32))
    requires
        source.x <= i32::MAX,
        source.y <= i32::MAX,
        dest.x <= i32::MAX,
        dest.y <= i32::MAX,
    ensures
        (v.0 as int, v.1 as int) == displacement(*source, *dest),
{
    (dest.x as i32 - source.x as i32, dest.y as i32 - source.y as i32)
}

/// Walks the line from `source` along `move_vec` in primitive steps and gathers the cells
/// on the board that it meets, nearest first.
pub fn points_along_vector(
    source: &LocationCoords,
    move_vec: &(i32, i32),
    mode: GatherPointsMode,
) -> (points: Vec<LocationCoords>)
    ensures
        points@ == path_points(*source, (move_vec.0 as int, move_vec.1 as int), mode),
{
    let ghost v = (move_vec.0 as int, move_vec.1 as int);
    let dx: i64 = move_vec.0 as i64;
    let dy: i64 = move_vec.1 as i64;
    let width: i64 = if dx < 0 { -dx } else { dx };
    let height: i64 = if dy < 0 { -dy } else { dy };
    let g: usize = gcd(width as usize, height as usize);
    let mut points: Vec<LocationCoords> = Vec::new();
    if g == 0 {
        return points;
    }
    proof {
        if v == (0int, 0int) {
            assert(spec_gcd(0, 0) == 0);
        }
        lemma_unit_step(v);
    }
    let steps: i64 = g as i64;
    let step_x: i64 = if dx < 0 { -(width / steps) } else { width / steps };
    let step_y: i64 = if dy < 0 { -(height / steps) } else { height / steps };
    let ghost step = unit_step(v);
    assert(step == (step_x as int, step_y as int));
    assert(-0x8000_0000 <= step_x <= 0x8000_0000 && -0x8000_0000 <= step_y <= 0x8000_0000)
        by (nonlinear_arith)
        requires
            0 < steps,
            0 <= width <= 0x8000_0000,
            0 <= height <= 0x8000_0000,
            step_x == (if dx < 0 {
                -(width / steps)
            } else {
                width / steps
            }),
            step_y == (if dy < 0 {
                -(height / steps)
            } else {
                height / steps
            }),
    ;
    let last: usize = match mode {
        GatherPointsMode::Exclusive => g - 1,
        GatherPointsMode::Inclusive => g,
    };
    let mut k: usize = 1;
    while k <= last
        invariant
            1 <= k <= last + 1,
            last <= 0x8000_0000,
            -0x8000_0000 <= step_x <= 0x8000_0000,
            -0x8000_0000 <= step_y <= 0x8000_0000,
            step == (step_x as int, step_y as int),
            points@ == trace(*source, step, (k - 1) as nat),
        decreases last + 1 - k,
    {
        let reach: i128 = k as i128;
        assert(-0x4000_0000_8000_0000 <= reach * step_x <= 0x4000_0000_8000_0000
            && -0x4000_0000_8000_0000 <= reach * step_y <= 0x4000_0000_8000_0000)
            by (nonlinear_arith)
            requires
                1 <= reach <= 0x8000_0001,
                -0x8000_0000 <= step_x <= 0x8000_0000,
                -0x8000_0000 <= step_y <= 0x8000_0000,
        ;
        let x: i128 = source.x as i128 + reach * (step_x as i128);
        let y: i128 = source.y as i128 + reach * (step_y as i128);
        if (x >= 0 && x <= 7) && (y >= 0 && y <= 7) {
            points.push(LocationCoords { x: x as usize, y: y as usize });
        }
        k = k + 1;
    }
    points
}

} // verus!
