//! What follows from the rules of play: statements about moves and threats that hold of
//! every consistent game.

use vstd::prelude::*;

use crate::attack::{as_vector, attack_directions, threat_flag, with_threat_flag};
use crate::game::{GameView, MoveError};
use crate::location::{on_board, LocationCoords};
use crate::path::{
    displacement,
    lattice_point,
    lemma_trace_on_board,
    lemma_unit_step,
    path_points,
    step_count,
    trace,
    unit_step,
    GatherPointsMode,
};
use crate::piece::{is_knight_jump, straight_directions, Piece, PieceRef, PieceType};
use crate::player::{lemma_capture_keeps_wf, Color, ROSTER_SIZE};
use crate::rays::{
    is_unit_direction,
    lemma_convex,
    lemma_scaled_direction,
    lemma_scaled_unit,
    lemma_unit_direction_is_primitive,
};

verus! {

/// Between two cells of the board no cell of the line is lost: the exclusive path from
/// one to the other holds every lattice point strictly between them, one per primitive
/// step, nearest first.
pub proof fn lemma_path_between_cells_is_complete(source: LocationCoords, dest: LocationCoords)
    requires
        source.in_bounds(),
        dest.in_bounds(),
        source != dest,
    ensures
        ({
            let v = displacement(source, dest);
            let path = path_points(source, v, GatherPointsMode::Exclusive);
            &&& path.len() == step_count(v) - 1
            &&& forall|i: int|
                0 <= i < path.len() ==> #[trigger] path[i] == LocationCoords::at(
                    lattice_point(source, unit_step(v), i + 1),
                )
        }),
{
    let v = displacement(source, dest);
    let g = step_count(v);
    let step = unit_step(v);
    lemma_unit_step(v);
    assert(lattice_point(source, step, g as int) == dest.point());
    assert forall|k: int| 1 <= k <= g - 1 implies on_board(#[trigger] lattice_point(source, step, k)) by {
        lemma_convex(source, step, k, g as int);
    }
    lemma_trace_on_board(source, step, (g - 1) as nat);
}

/// A move to a cell off the board is refused as out of bounds, whatever the state of the
/// game and wherever it starts.
pub proof fn lemma_off_board_is_refused(g: GameView, source: LocationCoords, dest: LocationCoords)
    requires
        !dest.in_bounds(),
    ensures
        g.move_error(source, dest) == Some(MoveError::OutOfBounds),
{
}

/// A move of a piece of the player who is not to move is refused, whatever the piece and
/// wherever on the board it is to go.
pub proof fn lemma_opponents_piece_is_refused(
    g: GameView,
    source: LocationCoords,
    dest: LocationCoords,
)
    requires
        g.wf(),
        source.in_bounds(),
        dest.in_bounds(),
        g.occupant_color(source) matches Some(side) && side != g.current_player,
    ensures
        g.move_error(source, dest) == Some(MoveError::NotOwner),
{
    assert(g.cell_wf(source));
}

/// A knight is never blocked: a knight of the player to move that jumps to a cell of the
/// board which holds no piece of its own side is moved there, whatever stands on the
/// cells around it.
pub proof fn lemma_knight_is_never_blocked(g: GameView, source: LocationCoords, dest: LocationCoords)
    requires
        g.wf(),
        source.in_bounds(),
        dest.in_bounds(),
        g.cell(source).piece matches Some(r) && g.piece(r).piece_type == PieceType::Knight
            && r.owner == g.current_player,
        is_knight_jump(displacement(source, dest)),
        g.occupant_color(dest) != Some(g.current_player),
    ensures
        g.move_error(source, dest) is None,
{
    assert(g.cell_wf(source));
    assert(g.cell_wf(dest));
}

/// A pawn's first move may be of two cells. A pawn of the player to move, with the two
/// cells ahead of it on the board and empty: it may always advance by one cell; it may
/// advance by two exactly when it has not moved before, and is refused with an illegal
/// move otherwise; and once it has advanced it has moved.
pub proof fn lemma_pawn_advance(g: GameView, source: LocationCoords)
    requires
        g.wf(),
        source.in_bounds(),
        g.cell(source).piece matches Some(r) && g.piece(r).piece_type == PieceType::Pawn && r.owner
            == g.current_player,
        on_board(lattice_point(source, (0, g.current_player.forward()), 2)),
        g.is_empty(LocationCoords::at(lattice_point(source, (0, g.current_player.forward()), 1))),
        g.is_empty(LocationCoords::at(lattice_point(source, (0, g.current_player.forward()), 2))),
    ensures
        ({
            let forward = (0int, g.current_player.forward());
            let pawn = g.cell(source).piece.unwrap();
            let one = LocationCoords::at(lattice_point(source, forward, 1));
            let two = LocationCoords::at(lattice_point(source, forward, 2));
            &&& g.move_error(source, one) is None
            &&& g.after_move(source, one).piece(pawn).has_moved
            &&& !g.piece(pawn).has_moved ==> g.move_error(source, two) is None && g.after_move(
                source,
                two,
            ).piece(pawn).has_moved
            &&& g.piece(pawn).has_moved ==> g.move_error(source, two) == Some(MoveError::IllegalMove)
        }),
{
    let forward = (0int, g.current_player.forward());
    let pawn = g.cell(source).piece.unwrap();
    let one = LocationCoords::at(lattice_point(source, forward, 1));
    let two = LocationCoords::at(lattice_point(source, forward, 2));
    lemma_convex(source, forward, 1, 2);
    assert(g.cell_wf(source));
    assert(g.cell_wf(one));
    assert(g.cell_wf(two));
    assert(g.piece_wf(pawn.owner, pawn.index));
    assert(displacement(source, one) == forward);
    assert(displacement(source, two) == (2 * forward.0, 2 * forward.1));
    lemma_unit_direction_is_primitive(forward);
    lemma_scaled_direction(forward, 2);
    reveal_with_fuel(trace, 2);
    assert(path_points(source, forward, GatherPointsMode::Exclusive) =~= Seq::empty());
    assert(path_points(source, displacement(source, two), GatherPointsMode::Exclusive) =~= seq![one]);
    assert(g.path_clear(source, displacement(source, one)));
    assert(g.path_clear(source, displacement(source, two)));
}

/// A capture takes the captured piece out of its owner's pieces in play and puts it at
/// the end of the owner's captured pieces, once; the owner's other pieces are listed as
/// they were, so that the two lists together hold as many pieces as before. The captured
/// piece stands on no cell any more, and the mover's lists are untouched.
pub proof fn lemma_capture_moves_one_piece(g: GameView, source: LocationCoords, dest: LocationCoords)
    requires
        g.wf(),
        g.move_error(source, dest) is None,
        !g.is_empty(dest),
    ensures
        ({
            let taken = g.cell(dest).piece.unwrap();
            let mover = g.cell(source).piece.unwrap();
            let before = g.player(taken.owner);
            let after = g.after_move(source, dest).player(taken.owner);
            &&& taken.owner != mover.owner
            &&& before.pieces.contains(taken.index)
            &&& !after.pieces.contains(taken.index)
            &&& after.dead_pieces == before.dead_pieces.push(taken.index)
            &&& after.pieces.len() == before.pieces.len() - 1
            &&& after.pieces.len() + after.dead_pieces.len() == before.pieces.len()
                + before.dead_pieces.len()
            &&& forall|h: usize|
                h != taken.index ==> (#[trigger] after.pieces.contains(h) == before.pieces.contains(h))
            &&& after.roster[taken.index as int].location is None
            &&& g.after_move(source, dest).player(mover.owner).pieces == g.player(mover.owner).pieces
            &&& g.after_move(source, dest).player(mover.owner).dead_pieces == g.player(
                mover.owner,
            ).dead_pieces
        }),
{
    let taken = g.cell(dest).piece.unwrap();
    let mover = g.cell(source).piece.unwrap();
    assert(g.cell_wf(source));
    assert(g.cell_wf(dest));
    assert(g.piece_wf(taken.owner, taken.index));
    assert(g.piece_wf(mover.owner, mover.index));
    lemma_capture_keeps_wf(g.player(taken.owner), taken.index);
}

/// A move without a capture leaves both players' lists of pieces as they were.
pub proof fn lemma_plain_move_keeps_lists(g: GameView, source: LocationCoords, dest: LocationCoords)
    requires
        g.wf(),
        g.move_error(source, dest) is None,
        g.is_empty(dest),
    ensures
        g.after_move(source, dest).player1.pieces == g.player1.pieces,
        g.after_move(source, dest).player1.dead_pieces == g.player1.dead_pieces,
        g.after_move(source, dest).player2.pieces == g.player2.pieces,
        g.after_move(source, dest).player2.dead_pieces == g.player2.dead_pieces,
{
    assert(g.cell_wf(dest));
}

/// The player to move is always one of the two players, and a move that is carried out
/// passes the turn to the other one.
pub proof fn lemma_turns_alternate(g: GameView, source: LocationCoords, dest: LocationCoords)
    requires
        g.wf(),
    ensures
        g.current_player == g.player1.color || g.current_player == g.player2.color,
        g.after_move(source, dest).current_player != g.current_player,
        g.current_player == g.player1.color ==> g.after_move(source, dest).current_player
            == g.player2.color,
        g.current_player == g.player2.color ==> g.after_move(source, dest).current_player
            == g.player1.color,
{
}

/// A move neither makes nor destroys a piece, and changes of a piece only what a move may
/// change: every piece keeps its kind, its owner and its identifier; a piece that has
/// moved has moved for good; and a captured piece stays captured.
pub proof fn lemma_pieces_persist(
    g: GameView,
    source: LocationCoords,
    dest: LocationCoords,
    r: PieceRef,
)
    requires
        g.wf(),
        g.move_error(source, dest) is None,
        r.index < ROSTER_SIZE,
    ensures
        g.after_move(source, dest).player1.roster.len() == g.player1.roster.len(),
        g.after_move(source, dest).player2.roster.len() == g.player2.roster.len(),
        g.after_move(source, dest).piece(r).piece_type == g.piece(r).piece_type,
        g.after_move(source, dest).piece(r).owner == g.piece(r).owner,
        g.after_move(source, dest).piece(r).id == g.piece(r).id,
        g.piece(r).has_moved ==> g.after_move(source, dest).piece(r).has_moved,
        g.piece(r).location is None ==> g.after_move(source, dest).piece(r).location is None,
        g.player(r.owner).dead_pieces.contains(r.index) ==> g.after_move(source, dest).player(
            r.owner,
        ).dead_pieces.contains(r.index),
{
    let mover = g.cell(source).piece.unwrap();
    assert(g.cell_wf(source));
    assert(g.cell_wf(dest));
    assert(g.piece_wf(mover.owner, mover.index));
    assert(g.piece_wf(r.owner, r.index));
    if let Some(t) = g.cell(dest).piece {
        assert(g.piece_wf(t.owner, t.index));
        lemma_capture_keeps_wf(g.player(t.owner), t.index);
    }
    let p = g.player(r.owner);
    assert(p.pieces.contains(r.index) != p.dead_pieces.contains(r.index));
}

/// A ray stops at the first piece in its way. Where the first piece along the direction
/// `d` from `from` stands `blocker` steps away: every cell before it is threatened; the
/// cell of the piece itself is threatened exactly when the piece is an enemy's; and no
/// cell behind it is threatened along this direction.
pub proof fn lemma_ray_stops_at_first_piece(
    g: GameView,
    from: LocationCoords,
    d: (int, int),
    color: Color,
    blocker: int,
    k: int,
)
    requires
        g.wf(),
        from.in_bounds(),
        is_unit_direction(d),
        1 <= blocker,
        on_board(lattice_point(from, d, blocker)),
        g.ray_open(from, d, blocker),
        !g.is_empty(LocationCoords::at(lattice_point(from, d, blocker))),
        1 <= k,
        on_board(lattice_point(from, d, k)),
    ensures
        ({
            let target = LocationCoords::at(lattice_point(from, d, k));
            g.ray_reaches(from, d, true, color, target) <==> (k < blocker || (k == blocker
                && g.occupant_color(target) != Some(color)))
        }),
{
    let target = LocationCoords::at(lattice_point(from, d, k));
    assert(g.cell_wf(target));
    if g.ray_reaches(from, d, true, color, target) {
        let n = choose|n: int|
            1 <= n && #[trigger] lattice_point(from, d, n) == target.point() && g.ray_open(from, d, n)
                && g.occupant_color(target) != Some(color);
        lemma_steps_differ(d, n, k);
        if k > blocker {
            assert(!g.is_empty(LocationCoords::at(lattice_point(from, d, blocker))));
        }
    }
    if k < blocker {
        assert(g.is_empty(LocationCoords::at(lattice_point(from, d, k))));
        assert forall|j: int| 1 <= j < k implies g.is_empty(
            LocationCoords::at(#[trigger] lattice_point(from, d, j)),
        ) by {}
        assert(g.ray_open(from, d, k));
        assert(lattice_point(from, d, k) == target.point());
    }
    if k == blocker && g.occupant_color(target) != Some(color) {
        assert(lattice_point(from, d, k) == target.point());
    }
}

/// A ray that meets no piece reaches every cell up to the edge of the board.
pub proof fn lemma_open_ray_reaches_all(
    g: GameView,
    from: LocationCoords,
    d: (int, int),
    color: Color,
    k: int,
)
    requires
        g.wf(),
        from.in_bounds(),
        is_unit_direction(d),
        1 <= k,
        on_board(lattice_point(from, d, k)),
        g.ray_open(from, d, k + 1),
    ensures
        g.ray_reaches(from, d, true, color, LocationCoords::at(lattice_point(from, d, k))),
{
    let target = LocationCoords::at(lattice_point(from, d, k));
    assert(g.cell_wf(target));
    assert(g.is_empty(LocationCoords::at(lattice_point(from, d, k))));
    assert(g.ray_open(from, d, k));
    assert(lattice_point(from, d, k) == target.point());
}

/// What the attack map says of a cell: its flag for the side `color` is up exactly when
/// `color` threatens the cell, and the rest of the cell is as it was.
pub proof fn lemma_attack_map_cell(g: GameView, color: Color, c: LocationCoords)
    requires
        c.in_bounds(),
    ensures
        g.with_attack_map(color).cell(c) == with_threat_flag(
            g.cell(c),
            color,
            g.threatened_by(color, c),
        ),
        threat_flag(g.with_attack_map(color).cell(c), color) == g.threatened_by(color, c),
        threat_flag(g.with_attack_map(color).cell(c), color.opponent()) == threat_flag(
            g.cell(c),
            color.opponent(),
        ),
{
}

/// A rook threatens along its rank and its file up to the first piece in its way. Where
/// the first piece in one of the four straight directions stands `blocker` steps from
/// the rook: the rook threatens every cell before it, threatens the cell of that piece
/// exactly when the piece is an enemy's, and threatens no cell behind it.
pub proof fn lemma_rook_threatens_up_to_first_piece(
    g: GameView,
    rook: Piece,
    i: int,
    blocker: int,
    k: int,
)
    requires
        g.wf(),
        rook.piece_type == PieceType::Rook,
        rook.location matches Some(from) && from.in_bounds(),
        0 <= i < 4,
        1 <= blocker,
        1 <= k,
        ({
            let from = rook.location.unwrap();
            let d = as_vector(straight_directions()[i]);
            &&& on_board(lattice_point(from, d, blocker))
            &&& g.ray_open(from, d, blocker)
            &&& !g.is_empty(LocationCoords::at(lattice_point(from, d, blocker)))
            &&& on_board(lattice_point(from, d, k))
        }),
    ensures
        ({
            let from = rook.location.unwrap();
            let d = as_vector(straight_directions()[i]);
            let target = LocationCoords::at(lattice_point(from, d, k));
            g.piece_threatens(rook, target) <==> (k < blocker || (k == blocker && g.occupant_color(
                target,
            ) != Some(rook.owner)))
        }),
{
    let from = rook.location.unwrap();
    let dirs = straight_directions();
    let d = as_vector(dirs[i]);
    let target = LocationCoords::at(lattice_point(from, d, k));
    assert(is_unit_direction(d));
    lemma_ray_stops_at_first_piece(g, from, d, rook.owner, blocker, k);
    lemma_scaled_unit(k, d.0);
    lemma_scaled_unit(k, d.1);
    if g.piece_threatens(rook, target) {
        let j = choose|j: int|
            0 <= j < dirs.len() && g.ray_reaches(
                from,
                as_vector(#[trigger] dirs[j]),
                true,
                rook.owner,
                target,
            );
        let other = as_vector(dirs[j]);
        let n = choose|n: int|
            1 <= n && #[trigger] lattice_point(from, other, n) == target.point() && g.ray_open(
                from,
                other,
                n,
            ) && g.occupant_color(target) != Some(rook.owner);
        lemma_scaled_unit(n, other.0);
        lemma_scaled_unit(n, other.1);
        assert(j == 0 || j == 1 || j == 2 || j == 3);
        assert(i == 0 || i == 1 || i == 2 || i == 3);
        assert(on_board(target.point()));
        assert(n * other.0 == k * d.0);
        assert(n * other.1 == k * d.1);
        assert(j == i);
        assert(g.ray_reaches(from, d, true, rook.owner, target));
    }
    if g.ray_reaches(from, d, true, rook.owner, target) {
        assert(attack_directions(rook.piece_type, rook.owner) == dirs);
        assert(g.ray_reaches(from, as_vector(dirs[i]), true, rook.owner, target));
        assert(g.piece_threatens(rook, target));
    }
}

/// Different numbers of steps along a direction that is not zero lead to different
/// lattice points.
proof fn lemma_steps_differ(d: (int, int), n: int, k: int)
    requires
        d != (0int, 0int),
        n * d.0 == k * d.0,
        n * d.1 == k * d.1,
    ensures
        n == k,
{
    assert(n == k) by (nonlinear_arith)
        requires
            d.0 != 0 || d.1 != 0,
            n * d.0 == k * d.0,
            n * d.1 == k * d.1,
    ;
}

} // verus!
