//! Facts about rays on the board, which tie the walk that raises threat flags to the
//! statement of what a piece threatens.

use vstd::prelude::*;
use vstd::arithmetic::div_mod::{lemma_mod_self_0, lemma_small_mod};

use crate::attack::{
    as_vector,
    attack_directions,
    attack_path,
    is_sliding,
    leaves_board_after,
    lemma_lattice_step,
    lemma_steps_to_edge_unique,
    steps_to_edge,
    vectors_in_bounds,
    vectors_to_edge,
};
use crate::game::GameView;
use crate::location::{on_board, LocationCoords};
use crate::path::{
    lattice_point,
    lemma_trace_on_board,
    lemma_unit_step,
    path_points,
    step_count,
    trace,
    unit_step,
    GatherPointsMode,
};
use crate::piece::{magnitude, Piece, PieceType};
use crate::player::Color;
use crate::utils::spec_gcd;

verus! {

/// A step to a neighbouring cell.
pub open spec fn is_unit_direction(d: (int, int)) -> bool {
    &&& -1 <= d.0 <= 1
    &&& -1 <= d.1 <= 1
    &&& d != (0int, 0int)
}

/// A product with a factor of magnitude at most one.
pub proof fn lemma_scaled_unit(m: int, c: int)
    requires
        -1 <= c <= 1,
    ensures
        m * c == (if c == 1 {
            m
        } else if c == -1 {
            -m
        } else {
            0
        }),
{
    assert(m * c == (if c == 1 {
        m
    } else if c == -1 {
        -m
    } else {
        0
    })) by (nonlinear_arith)
        requires
            -1 <= c <= 1,
    ;
}

/// The cells of a line between two cells of the board lie on the board.
pub proof fn lemma_convex(from: LocationCoords, d: (int, int), j: int, k: int)
    requires
        from.in_bounds(),
        on_board(lattice_point(from, d, k)),
        0 <= j <= k,
    ensures
        on_board(lattice_point(from, d, j)),
{
    assert((d.0 >= 0 ==> 0 <= j * d.0 <= k * d.0) && (d.0 <= 0 ==> k * d.0 <= j * d.0 <= 0))
        by (nonlinear_arith)
        requires
            0 <= j <= k,
    ;
    assert((d.1 >= 0 ==> 0 <= j * d.1 <= k * d.1) && (d.1 <= 0 ==> k * d.1 <= j * d.1 <= 0))
        by (nonlinear_arith)
        requires
            0 <= j <= k,
    ;
}

/// A cell of the board lies fewer than eight steps from any other along a direction that
/// is not zero.
pub proof fn lemma_reach_is_short(from: LocationCoords, d: (int, int), k: int)
    requires
        from.in_bounds(),
        d != (0int, 0int),
        0 <= k,
        on_board(lattice_point(from, d, k)),
    ensures
        k <= 7,
{
    if k >= 8 {
        assert((d.0 >= 1 ==> k * d.0 >= 8) && (d.0 <= -1 ==> k * d.0 <= -8)) by (nonlinear_arith)
            requires
                k >= 8,
        ;
        assert((d.1 >= 1 ==> k * d.1 >= 8) && (d.1 <= -1 ==> k * d.1 <= -8)) by (nonlinear_arith)
            requires
                k >= 8,
        ;
    }
}

/// Walking on from `k` steps, all of them on the board, the board is left after some
/// number of steps.
proof fn lemma_find_edge(from: LocationCoords, d: (int, int), k: int) -> (m: int)
    requires
        from.in_bounds(),
        d != (0int, 0int),
        0 <= k,
        forall|j: int| 1 <= j <= k ==> on_board(#[trigger] lattice_point(from, d, j)),
    ensures
        leaves_board_after(from, d, m),
        k <= m <= 7,
    decreases 8 - k,
{
    lemma_lattice_step(from, d, 0);
    if k >= 1 {
        lemma_reach_is_short(from, d, k);
    }
    if on_board(lattice_point(from, d, k + 1)) {
        lemma_reach_is_short(from, d, k + 1);
        lemma_find_edge(from, d, k + 1)
    } else {
        k
    }
}

/// From a cell of the board, every direction that is not zero leaves the board after at
/// most seven steps, and the number of steps to the edge says after how many.
pub proof fn lemma_edge_exists(from: LocationCoords, d: (int, int))
    requires
        from.in_bounds(),
        d != (0int, 0int),
    ensures
        leaves_board_after(from, d, steps_to_edge(from, d)),
        0 <= steps_to_edge(from, d) <= 7,
{
    let m = lemma_find_edge(from, d, 0);
    lemma_steps_to_edge_unique(from, d, m);
}

/// A displacement whose components have no common factor is its own primitive step, and
/// its inclusive path is the one cell that it leads to, if that cell is on the board.
pub proof fn lemma_single_step_path(from: LocationCoords, v: (int, int))
    requires
        step_count(v) == 1,
    ensures
        unit_step(v) == v,
        path_points(from, v, GatherPointsMode::Inclusive) == (if on_board(lattice_point(from, v, 1)) {
            seq![LocationCoords::at(lattice_point(from, v, 1))]
        } else {
            Seq::<LocationCoords>::empty()
        }),
{
    reveal_with_fuel(trace, 2);
    assert(path_points(from, v, GatherPointsMode::Inclusive) =~= (if on_board(
        lattice_point(from, v, 1),
    ) {
        seq![LocationCoords::at(lattice_point(from, v, 1))]
    } else {
        Seq::<LocationCoords>::empty()
    }));
}

/// A step to a neighbouring cell has no common factor in its components.
pub proof fn lemma_unit_direction_is_primitive(d: (int, int))
    requires
        is_unit_direction(d),
    ensures
        step_count(d) == 1,
{
    reveal_with_fuel(spec_gcd, 3);
}

/// The displacement of `m` steps to a neighbouring cell is made of `m` primitive steps,
/// each of them that step.
pub proof fn lemma_scaled_direction(d: (int, int), m: int)
    requires
        is_unit_direction(d),
        1 <= m,
    ensures
        step_count((m * d.0, m * d.1)) == m,
        unit_step((m * d.0, m * d.1)) == d,
{
    let w = (m * d.0, m * d.1);
    lemma_scaled_unit(m, d.0);
    lemma_scaled_unit(m, d.1);
    let a = magnitude(w.0) as nat;
    let b = magnitude(w.1) as nat;
    assert(a == 0 || a == m);
    assert(b == 0 || b == m);
    reveal_with_fuel(spec_gcd, 3);
    lemma_small_mod(0, m as nat);
    lemma_mod_self_0(m);
    assert(spec_gcd(a, b) == m);
    lemma_unit_step(w);
    let u = unit_step(w);
    assert(u.0 == d.0) by (nonlinear_arith)
        requires
            m >= 1,
            m * u.0 == m * d.0,
    ;
    assert(u.1 == d.1) by (nonlinear_arith)
        requires
            m >= 1,
            m * u.1 == m * d.1,
    ;
}

/// The inclusive path along the displacement to the edge of the board in a direction to
/// a neighbouring cell holds every cell up to the edge, one per step.
pub proof fn lemma_edge_path(from: LocationCoords, d: (int, int), m: int)
    requires
        from.in_bounds(),
        is_unit_direction(d),
        1 <= m,
        leaves_board_after(from, d, m),
    ensures
        path_points(from, (m * d.0, m * d.1), GatherPointsMode::Inclusive).len() == m,
        forall|i: int|
            0 <= i < m ==> #[trigger] path_points(
                from,
                (m * d.0, m * d.1),
                GatherPointsMode::Inclusive,
            )[i] == LocationCoords::at(lattice_point(from, d, i + 1)),
{
    lemma_scaled_direction(d, m);
    lemma_trace_on_board(from, d, m as nat);
}

/// The directions in which a piece threatens are jumps for a knight and steps to a
/// neighbouring cell for every other piece.
pub proof fn lemma_directions_shape(piece_type: PieceType, color: Color)
    ensures
        forall|i: int|
            0 <= i < attack_directions(piece_type, color).len() ==> (if piece_type
                == PieceType::Knight {
                crate::piece::is_knight_jump(
                    as_vector(#[trigger] attack_directions(piece_type, color)[i]),
                )
            } else {
                is_unit_direction(as_vector(attack_directions(piece_type, color)[i]))
            }),
{
    let dirs = attack_directions(piece_type, color);
    assert(dirs.len() <= 8);
    assert forall|i: int| 0 <= i < dirs.len() implies (if piece_type == PieceType::Knight {
        crate::piece::is_knight_jump(as_vector(#[trigger] dirs[i]))
    } else {
        is_unit_direction(as_vector(dirs[i]))
    }) by {
        assert(i == 0 || i == 1 || i == 2 || i == 3 || i == 4 || i == 5 || i == 6 || i == 7);
    }
}

/// What the displacements that stay on the board are.
pub proof fn lemma_vectors_in_bounds(from: LocationCoords, vecs: Seq<(i32, i32)>)
    ensures
        forall|v: (i32, i32)|
            #[trigger] vectors_in_bounds(from, vecs).contains(v) <==> (vecs.contains(v) && v != (
                0i32,
                0i32,
            ) && on_board(lattice_point(from, as_vector(v), 1))),
    decreases vecs.len(),
{
    let kept = vectors_in_bounds(from, vecs);
    if vecs.len() > 0 {
        let shorter = vecs.drop_last();
        let earlier = vectors_in_bounds(from, shorter);
        lemma_vectors_in_bounds(from, shorter);
        let last = vecs.last();
        assert forall|v: (i32, i32)| #[trigger] kept.contains(v) <==> (vecs.contains(v) && v != (
            0i32,
            0i32,
        ) && on_board(lattice_point(from, as_vector(v), 1))) by {
            let good = v != (0i32, 0i32) && on_board(lattice_point(from, as_vector(v), 1));
            if kept.contains(v) {
                let i = choose|i: int| 0 <= i < kept.len() && kept[i] == v;
                if i < earlier.len() {
                    assert(earlier[i] == v);
                    assert(earlier.contains(v));
                    let j = choose|j: int| 0 <= j < shorter.len() && shorter[j] == v;
                    assert(vecs[j] == v);
                } else {
                    assert(v == last);
                    assert(vecs[vecs.len() - 1] == v);
                }
            }
            if vecs.contains(v) && good {
                let j = choose|j: int| 0 <= j < vecs.len() && vecs[j] == v;
                if j < shorter.len() {
                    assert(shorter[j] == v);
                    assert(shorter.contains(v));
                    assert(earlier.contains(v));
                    let i = choose|i: int| 0 <= i < earlier.len() && earlier[i] == v;
                    assert(kept[i] == v);
                } else {
                    assert(kept[kept.len() - 1] == v);
                }
            }
        }
    }
}

/// The displacement from `from` to the last cell of the board in the direction `d`.
pub open spec fn edge_vector(from: LocationCoords, d: (i32, i32)) -> (i32, i32) {
    let m = steps_to_edge(from, as_vector(d));
    ((m * d.0) as i32, (m * d.1) as i32)
}

/// The direction `d` contributes a displacement to the edge.
pub open spec fn has_edge_vector(from: LocationCoords, d: (i32, i32)) -> bool {
    d != (0i32, 0i32) && steps_to_edge(from, as_vector(d)) >= 1
}

/// What the displacements to the edge are.
pub proof fn lemma_vectors_to_edge(from: LocationCoords, dirs: Seq<(i32, i32)>)
    ensures
        forall|w: (i32, i32)|
            #[trigger] vectors_to_edge(from, dirs).contains(w) <==> exists|j: int|
                0 <= j < dirs.len() && has_edge_vector(from, #[trigger] dirs[j]) && w == edge_vector(
                    from,
                    dirs[j],
                ),
    decreases dirs.len(),
{
    let edges = vectors_to_edge(from, dirs);
    if dirs.len() > 0 {
        let shorter = dirs.drop_last();
        let earlier = vectors_to_edge(from, shorter);
        lemma_vectors_to_edge(from, shorter);
        let last = dirs.last();
        assert forall|w: (i32, i32)| #[trigger] edges.contains(w) <==> exists|j: int|
            0 <= j < dirs.len() && has_edge_vector(from, #[trigger] dirs[j]) && w == edge_vector(
                from,
                dirs[j],
            ) by {
            if edges.contains(w) {
                let i = choose|i: int| 0 <= i < edges.len() && edges[i] == w;
                if i < earlier.len() {
                    assert(earlier[i] == w);
                    assert(earlier.contains(w));
                    let j = choose|j: int|
                        0 <= j < shorter.len() && has_edge_vector(from, #[trigger] shorter[j]) && w
                            == edge_vector(from, shorter[j]);
                    assert(dirs[j] == shorter[j]);
                } else {
                    assert(has_edge_vector(from, dirs[dirs.len() - 1]));
                }
            }
            if exists|j: int|
                0 <= j < dirs.len() && has_edge_vector(from, #[trigger] dirs[j]) && w == edge_vector(
                    from,
                    dirs[j],
                ) {
                let j = choose|j: int|
                    0 <= j < dirs.len() && has_edge_vector(from, #[trigger] dirs[j]) && w
                        == edge_vector(from, dirs[j]);
                if j < shorter.len() {
                    assert(shorter[j] == dirs[j]);
                    assert(earlier.contains(w));
                    let i = choose|i: int| 0 <= i < earlier.len() && earlier[i] == w;
                    assert(edges[i] == w);
                } else {
                    assert(edges[edges.len() - 1] == w);
                }
            }
        }
    }
}

/// For a piece that threatens at one step only, walking the displacements that stay on
/// the board marks exactly the cells that the piece threatens.
pub proof fn lemma_short_range_marks(g: GameView, piece: Piece, target: LocationCoords)
    requires
        piece.location matches Some(from) && from.in_bounds(),
        !is_sliding(piece.piece_type),
        target.in_bounds(),
    ensures
        g.vectors_mark(
            piece,
            vectors_in_bounds(
                piece.location.unwrap(),
                attack_directions(piece.piece_type, piece.owner),
            ),
            target,
        ) == g.piece_threatens(piece, target),
{
    let from = piece.location.unwrap();
    let color = piece.owner;
    let dirs = attack_directions(piece.piece_type, color);
    let kept = vectors_in_bounds(from, dirs);
    lemma_vectors_in_bounds(from, dirs);
    lemma_directions_shape(piece.piece_type, color);
    if g.vectors_mark(piece, kept, target) {
        let i = choose|i: int|
            0 <= i < kept.len() && g.walk_marks(
                attack_path(piece.piece_type, from, #[trigger] kept[i]),
                color,
                target,
            );
        let v = kept[i];
        assert(kept.contains(v));
        let j = choose|j: int| 0 <= j < dirs.len() && dirs[j] == v;
        let d = as_vector(dirs[j]);
        lemma_landing(piece.piece_type, from, d, v);
        let path = attack_path(piece.piece_type, from, v);
        let at = choose|at: int|
            0 <= at < path.len() && #[trigger] path[at] == target && g.walk_open(path, at)
                && g.occupant_color(target) != Some(color);
        assert(lattice_point(from, d, 1) == target.point());
        assert(g.ray_reaches(from, d, false, color, target));
    }
    if g.piece_threatens(piece, target) {
        let j = choose|j: int|
            0 <= j < dirs.len() && g.ray_reaches(
                from,
                as_vector(#[trigger] dirs[j]),
                false,
                color,
                target,
            );
        let v = dirs[j];
        let d = as_vector(v);
        assert(lattice_point(from, d, 1) == target.point());
        assert(dirs.contains(v));
        assert(kept.contains(v));
        let i = choose|i: int| 0 <= i < kept.len() && kept[i] == v;
        lemma_landing(piece.piece_type, from, d, v);
        let path = attack_path(piece.piece_type, from, v);
        assert(path[0] == target);
        assert(g.walk_open(path, 0));
        assert(g.walk_marks(attack_path(piece.piece_type, from, kept[i]), color, target));
    }
}

/// A piece that threatens at one step only looks, for a displacement of its kind, at the
/// one cell that the displacement leads to.
proof fn lemma_landing(piece_type: PieceType, from: LocationCoords, d: (int, int), v: (i32, i32))
    requires
        d == as_vector(v),
        if piece_type == PieceType::Knight {
            crate::piece::is_knight_jump(d)
        } else {
            is_unit_direction(d)
        },
    ensures
        attack_path(piece_type, from, v) == (if on_board(lattice_point(from, d, 1)) {
            seq![LocationCoords::at(lattice_point(from, d, 1))]
        } else {
            Seq::<LocationCoords>::empty()
        }),
{
    if piece_type != PieceType::Knight {
        lemma_unit_direction_is_primitive(d);
        lemma_single_step_path(from, d);
    }
}

/// For a piece that threatens along whole lines, walking the displacements to the edge
/// of the board marks exactly the cells that the piece threatens.
pub proof fn lemma_sliding_marks(g: GameView, piece: Piece, target: LocationCoords)
    requires
        piece.location matches Some(from) && from.in_bounds(),
        is_sliding(piece.piece_type),
        target.in_bounds(),
    ensures
        g.vectors_mark(
            piece,
            vectors_to_edge(piece.location.unwrap(), attack_directions(piece.piece_type, piece.owner)),
            target,
        ) == g.piece_threatens(piece, target),
{
    let from = piece.location.unwrap();
    let color = piece.owner;
    let dirs = attack_directions(piece.piece_type, color);
    let edges = vectors_to_edge(from, dirs);
    lemma_vectors_to_edge(from, dirs);
    lemma_directions_shape(piece.piece_type, color);
    if g.vectors_mark(piece, edges, target) {
        let i = choose|i: int|
            0 <= i < edges.len() && g.walk_marks(
                attack_path(piece.piece_type, from, #[trigger] edges[i]),
                color,
                target,
            );
        let w = edges[i];
        assert(edges.contains(w));
        let j = choose|j: int|
            0 <= j < dirs.len() && has_edge_vector(from, #[trigger] dirs[j]) && w == edge_vector(
                from,
                dirs[j],
            );
        let d = as_vector(dirs[j]);
        let m = steps_to_edge(from, d);
        lemma_edge_exists(from, d);
        lemma_scaled_unit(m, d.0);
        lemma_scaled_unit(m, d.1);
        assert(as_vector(w) == (m * d.0, m * d.1));
        lemma_edge_path(from, d, m);
        let path = attack_path(piece.piece_type, from, w);
        let at = choose|at: int|
            0 <= at < path.len() && #[trigger] path[at] == target && g.walk_open(path, at)
                && g.occupant_color(target) != Some(color);
        assert(lattice_point(from, d, at + 1) == target.point());
        assert forall|n: int| 1 <= n < at + 1 implies g.is_empty(
            LocationCoords::at(#[trigger] lattice_point(from, d, n)),
        ) by {
            assert(path[n - 1] == LocationCoords::at(lattice_point(from, d, n)));
        }
        assert(g.ray_reaches(from, d, true, color, target));
    }
    if g.piece_threatens(piece, target) {
        let j = choose|j: int|
            0 <= j < dirs.len() && g.ray_reaches(
                from,
                as_vector(#[trigger] dirs[j]),
                true,
                color,
                target,
            );
        let d = as_vector(dirs[j]);
        let k = choose|k: int|
            1 <= k && #[trigger] lattice_point(from, d, k) == target.point() && g.ray_open(from, d, k)
                && g.occupant_color(target) != Some(color);
        let m = steps_to_edge(from, d);
        lemma_edge_exists(from, d);
        if k > m {
            lemma_convex(from, d, m + 1, k);
        }
        let w = edge_vector(from, dirs[j]);
        lemma_scaled_unit(m, d.0);
        lemma_scaled_unit(m, d.1);
        assert(as_vector(w) == (m * d.0, m * d.1));
        assert(has_edge_vector(from, dirs[j]));
        assert(edges.contains(w));
        let i = choose|i: int| 0 <= i < edges.len() && edges[i] == w;
        lemma_edge_path(from, d, m);
        let path = attack_path(piece.piece_type, from, w);
        assert(path[k - 1] == target);
        assert forall|n: int| 0 <= n < k - 1 implies g.is_empty(#[trigger] path[n]) by {
            assert(path[n] == LocationCoords::at(lattice_point(from, d, n + 1)));
        }
        assert(g.walk_open(path, k - 1));
        assert(g.walk_marks(attack_path(piece.piece_type, from, edges[i]), color, target));
    }
}

/// The cells that a piece looks at lie on the board.
pub proof fn lemma_attack_path_in_bounds(piece_type: PieceType, from: LocationCoords, v: (i32, i32))
    ensures
        forall|i: int|
            0 <= i < attack_path(piece_type, from, v).len() ==> (#[trigger] attack_path(
                piece_type,
                from,
                v,
            )[i]).in_bounds(),
{
    crate::path::lemma_path_in_bounds(from, as_vector(v), GatherPointsMode::Inclusive);
}

/// What a piece marks does not depend on the threat flags.
pub proof fn lemma_marks_ignore_flags(
    g: GameView,
    later: GameView,
    flags_of: Color,
    piece: Piece,
    vecs: Seq<(i32, i32)>,
    target: LocationCoords,
)
    requires
        g.same_but_flags(later, flags_of),
    ensures
        later.vectors_mark(piece, vecs, target) == g.vectors_mark(piece, vecs, target),
{
    if let Some(from) = piece.location {
        assert forall|i: int| 0 <= i < vecs.len() implies later.walk_marks(
            attack_path(piece.piece_type, from, #[trigger] vecs[i]),
            piece.owner,
            target,
        ) == g.walk_marks(attack_path(piece.piece_type, from, vecs[i]), piece.owner, target) by {
            let path = attack_path(piece.piece_type, from, vecs[i]);
            lemma_attack_path_in_bounds(piece.piece_type, from, vecs[i]);
            assert forall|k: int| 0 <= k < path.len() implies later.is_empty(#[trigger] path[k])
                == g.is_empty(path[k]) && later.occupant_color(path[k]) == g.occupant_color(
                path[k],
            ) by {
                assert(later.cell(path[k]) == crate::attack::with_threat_flag(
                    g.cell(path[k]),
                    flags_of,
                    crate::attack::threat_flag(later.cell(path[k]), flags_of),
                ));
            }
            if g.walk_marks(path, piece.owner, target) {
                let at = choose|at: int|
                    0 <= at < path.len() && #[trigger] path[at] == target && g.walk_open(path, at)
                        && g.occupant_color(target) != Some(piece.owner);
                assert(later.walk_open(path, at));
                assert(later.walk_marks(path, piece.owner, target));
            }
            if later.walk_marks(path, piece.owner, target) {
                let at = choose|at: int|
                    0 <= at < path.len() && #[trigger] path[at] == target && later.walk_open(path, at)
                        && later.occupant_color(target) != Some(piece.owner);
                assert(g.walk_open(path, at));
                assert(g.walk_marks(path, piece.owner, target));
            }
        }
    }
}

/// Walking the displacements that the attack map uses for a piece marks exactly the cells
/// that the piece threatens.
pub proof fn lemma_marks_are_threats(g: GameView, piece: Piece, target: LocationCoords)
    requires
        piece.location matches Some(from) && from.in_bounds(),
        target.in_bounds(),
    ensures
        g.vectors_mark(piece, crate::attack::attack_vectors(piece), target) == g.piece_threatens(
            piece,
            target,
        ),
{
    if is_sliding(piece.piece_type) {
        lemma_sliding_marks(g, piece, target);
    } else {
        lemma_short_range_marks(g, piece, target);
    }
}

} // verus!
