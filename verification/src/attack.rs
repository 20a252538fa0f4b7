//! The attack map: which cells each side threatens.

use vstd::prelude::*;

use crate::game::{Game, GameView};
use crate::location::{on_board, BoardLocation, LocationCoords, LocationState, BOARD_SIZE};
use crate::path::{
    lattice_point,
    lemma_path_in_bounds,
    path_points,
    points_along_vector,
    GatherPointsMode,
};
use crate::piece::{diagonal_directions, straight_directions, Piece, PieceType};
use crate::player::{Color, ROSTER_SIZE};

verus! {

/// The eight jumps of a knight.
pub open spec fn knight_jumps() -> Seq<(i32, i32)> {
    seq![
        (2i32, 1i32),
        (2i32, -1i32),
        (-2i32, 1i32),
        (-2i32, -1i32),
        (1i32, 2i32),
        (1i32, -2i32),
        (-1i32, 2i32),
        (-1i32, -2i32),
    ]
}

/// The eight steps of a king.
pub open spec fn king_steps() -> Seq<(i32, i32)> {
    seq![
        (1i32, 1i32),
        (1i32, -1i32),
        (-1i32, 1i32),
        (-1i32, -1i32),
        (0i32, 1i32),
        (0i32, -1i32),
        (1i32, 0i32),
        (-1i32, 0i32),
    ]
}

/// The two captures of a pawn of side `color`: one cell diagonally forward.
pub open spec fn pawn_captures(color: Color) -> Seq<(i32, i32)> {
    seq![(1i32, color.forward() as i32), (-1i32, color.forward() as i32)]
}

/// Rooks, bishops and queens threaten along a whole line; the others threaten at one
/// step only.
pub open spec fn is_sliding(piece_type: PieceType) -> bool {
    piece_type == PieceType::Rook || piece_type == PieceType::Bishop || piece_type
        == PieceType::Queen
}

/// The directions in which a piece of the given kind and side threatens.
pub open spec fn attack_directions(piece_type: PieceType, color: Color) -> Seq<(i32, i32)> {
    match piece_type {
        PieceType::Pawn => pawn_captures(color),
        PieceType::Rook => straight_directions(),
        PieceType::Knight => knight_jumps(),
        PieceType::Bishop => diagonal_directions(),
        PieceType::Queen => diagonal_directions() + straight_directions(),
        PieceType::King => king_steps(),
    }
}

/// A direction as a pair of mathematical integers.
pub open spec fn as_vector(d: (i32, i32)) -> (int, int) {
    (d.0 as int, d.1 as int)
}

/// The threat flag of `cell` for the side `color`.
pub open spec fn threat_flag(cell: BoardLocation, color: Color) -> bool {
    match color {
        Color::White => cell.white_attackable,
        Color::Black => cell.black_attackable,
    }
}

/// The cell with its threat flag for the side `color` set to `flag`.
pub open spec fn with_threat_flag(cell: BoardLocation, color: Color, flag: bool) -> BoardLocation {
    match color {
        Color::White => BoardLocation { white_attackable: flag, ..cell },
        Color::Black => BoardLocation { black_attackable: flag, ..cell },
    }
}

/// Of the displacements `vecs`, those that are not zero and lead from `from` to a cell on
/// the board, in their order.
pub open spec fn vectors_in_bounds(from: LocationCoords, vecs: Seq<(i32, i32)>) -> Seq<(i32, i32)>
    decreases vecs.len(),
{
    if vecs.len() == 0 {
        Seq::empty()
    } else {
        let earlier = vectors_in_bounds(from, vecs.drop_last());
        let v = vecs.last();
        if v != (0i32, 0i32) && on_board(lattice_point(from, as_vector(v), 1)) {
            earlier.push(v)
        } else {
            earlier
        }
    }
}

/// From `from`, exactly `m` steps of `d` can be taken before the board is left.
pub open spec fn leaves_board_after(from: LocationCoords, d: (int, int), m: int) -> bool {
    &&& 0 <= m
    &&& forall|k: int| 1 <= k <= m ==> on_board(#[trigger] lattice_point(from, d, k))
    &&& !on_board(lattice_point(from, d, m + 1))
}

/// The number of steps of `d` that can be taken from `from` before the board is left.
pub open spec fn steps_to_edge(from: LocationCoords, d: (int, int)) -> int {
    choose|m: int| leaves_board_after(from, d, m)
}

/// For each of the directions `dirs` that is not zero and along which at least one step
/// from `from` stays on the board: the displacement from `from` to the last cell on the
/// board in that direction. In the order of `dirs`.
pub open spec fn vectors_to_edge(from: LocationCoords, dirs: Seq<(i32, i32)>) -> Seq<(i32, i32)>
    decreases dirs.len(),
{
    if dirs.len() == 0 {
        Seq::empty()
    } else {
        let earlier = vectors_to_edge(from, dirs.drop_last());
        let d = dirs.last();
        let m = steps_to_edge(from, as_vector(d));
        if d != (0i32, 0i32) && m >= 1 {
            earlier.push(((m * d.0) as i32, (m * d.1) as i32))
        } else {
            earlier
        }
    }
}

/// Only one number of steps leaves the board in the sense of [`leaves_board_after`].
pub proof fn lemma_steps_to_edge_unique(from: LocationCoords, d: (int, int), m: int)
    requires
        leaves_board_after(from, d, m),
    ensures
        steps_to_edge(from, d) == m,
{
    let n = steps_to_edge(from, d);
    assert(leaves_board_after(from, d, n));
    if n < m {
        assert(on_board(lattice_point(from, d, n + 1)));
    } else if m < n {
        assert(on_board(lattice_point(from, d, m + 1)));
    }
}

/// One more step along `d` adds `d` to a lattice point.
pub proof fn lemma_lattice_step(from: LocationCoords, d: (int, int), k: int)
    ensures
        lattice_point(from, d, k + 1) == (
            lattice_point(from, d, k).0 + d.0,
            lattice_point(from, d, k).1 + d.1,
        ),
        lattice_point(from, d, 0) == from.point(),
        lattice_point(from, d, 1) == (from.x + d.0, from.y + d.1),
{
    assert((k + 1) * d.0 == k * d.0 + d.0) by (nonlinear_arith);
    assert((k + 1) * d.1 == k * d.1 + d.1) by (nonlinear_arith);
}

impl GameView {
    /// `later` is this game with some threat flags of the side `color` changed and nothing
    /// else.
    pub open spec fn same_but_flags(self, later: GameView, color: Color) -> bool {
        &&& later.player1 == self.player1
        &&& later.player2 == self.player2
        &&& later.current_player == self.current_player
        &&& later.board_shaped()
        &&& forall|c: LocationCoords|
            c.in_bounds() ==> #[trigger] later.cell(c) == with_threat_flag(
                self.cell(c),
                color,
                threat_flag(later.cell(c), color),
            )
    }
}

/// The cells that a piece of kind `piece_type` on `from` looks at for the displacement
/// `v`, nearest first: a knight looks at the cell it would land on, every other piece at
/// the cells along the line up to and including `from + v`.
pub open spec fn attack_path(piece_type: PieceType, from: LocationCoords, v: (i32, i32)) -> Seq<
    LocationCoords,
> {
    if piece_type == PieceType::Knight {
        let landing = lattice_point(from, as_vector(v), 1);
        if on_board(landing) {
            seq![LocationCoords::at(landing)]
        } else {
            Seq::empty()
        }
    } else {
        path_points(from, as_vector(v), GatherPointsMode::Inclusive)
    }
}

impl GameView {
    /// Walking `path` for the side `color` marks `target`: the walk comes to `target`
    /// over empty cells only, and `target` does not hold a piece of `color`.
    pub open spec fn walk_marks(self, path: Seq<LocationCoords>, color: Color, target: LocationCoords) -> bool {
        exists|i: int|
            0 <= i < path.len() && #[trigger] path[i] == target && self.walk_open(path, i)
                && self.occupant_color(target) != Some(color)
    }

    /// The first `i` cells of `path` are empty.
    pub open spec fn walk_open(self, path: Seq<LocationCoords>, i: int) -> bool {
        forall|j: int| 0 <= j < i ==> self.is_empty(#[trigger] path[j])
    }

    /// The cells at one to `k - 1` steps of `d` from `from` are empty.
    pub open spec fn ray_open(self, from: LocationCoords, d: (int, int), k: int) -> bool {
        forall|j: int|
            1 <= j < k ==> self.is_empty(LocationCoords::at(#[trigger] lattice_point(from, d, j)))
    }

    /// A piece of the side `color` on `from` threatens `target` along the direction `d`:
    /// `target` lies some steps of `d` away (one step, unless `far`), every cell between
    /// is empty, and `target` does not hold a piece of `color`.
    pub open spec fn ray_reaches(
        self,
        from: LocationCoords,
        d: (int, int),
        far: bool,
        color: Color,
        target: LocationCoords,
    ) -> bool {
        exists|k: int|
            1 <= k && (far || k == 1) && #[trigger] lattice_point(from, d, k) == target.point()
                && self.ray_open(from, d, k) && self.occupant_color(target) != Some(color)
    }

    /// `piece` threatens `target`: it stands on the board, and `target` is reached along
    /// one of the directions of its kind.
    pub open spec fn piece_threatens(self, piece: Piece, target: LocationCoords) -> bool {
        let dirs = attack_directions(piece.piece_type, piece.owner);
        piece.location matches Some(from) && exists|i: int|
            0 <= i < dirs.len() && self.ray_reaches(
                from,
                as_vector(#[trigger] dirs[i]),
                is_sliding(piece.piece_type),
                piece.owner,
                target,
            )
    }

    /// The `i`-th of the pieces that the side `color` has in play.
    pub open spec fn active_piece(self, color: Color, i: int) -> Piece {
        self.player(color).roster[self.player(color).pieces[i] as int]
    }

    /// One of the first `n` pieces that the side `color` has in play threatens `target`.
    pub open spec fn threatened_by_first(self, color: Color, n: int, target: LocationCoords) -> bool {
        exists|i: int| 0 <= i < n && self.piece_threatens(#[trigger] self.active_piece(color, i), target)
    }

    /// The side `color` threatens `target`: one of its pieces in play does.
    pub open spec fn threatened_by(self, color: Color, target: LocationCoords) -> bool {
        self.threatened_by_first(color, self.player(color).pieces.len() as int, target)
    }

    /// The game with the threat flags of the side `color` computed anew: the flag of a
    /// cell is up exactly when `color` threatens the cell. Nothing else differs.
    pub open spec fn with_attack_map(self, color: Color) -> GameView {
        GameView {
            board: Seq::new(
                BOARD_SIZE as nat,
                |y: int|
                    Seq::new(
                        BOARD_SIZE as nat,
                        |x: int|
                            with_threat_flag(
                                self.board[y][x],
                                color,
                                self.threatened_by(color, LocationCoords { x: x as usize, y: y as usize }),
                            ),
                    ),
            ),
            ..self
        }
    }

    /// One of the displacements `vecs` makes `piece` mark `target`.
    pub open spec fn vectors_mark(self, piece: Piece, vecs: Seq<(i32, i32)>, target: LocationCoords) -> bool {
        piece.location matches Some(from) && exists|i: int|
            0 <= i < vecs.len() && self.walk_marks(
                attack_path(piece.piece_type, from, #[trigger] vecs[i]),
                piece.owner,
                target,
            )
    }
}

/// The displacements that the attack map walks for `piece`: for a piece that threatens
/// along whole lines, those to the edge of the board; for the others, those of its kind
/// that stay on the board. None for a piece that stands nowhere.
pub open spec fn attack_vectors(piece: Piece) -> Seq<(i32, i32)> {
    let dirs = attack_directions(piece.piece_type, piece.owner);
    match piece.location {
        Some(from) => if is_sliding(piece.piece_type) {
            vectors_to_edge(from, dirs)
        } else {
            vectors_in_bounds(from, dirs)
        },
        None => Seq::empty(),
    }
}

/// Changing threat flags leaves a game consistent.
pub proof fn lemma_flags_keep_wf(g: GameView, later: GameView, color: Color)
    requires
        g.wf(),
        g.same_but_flags(later, color),
    ensures
        later.wf(),
{
    assert forall|c: LocationCoords| c.in_bounds() implies #[trigger] later.cell_wf(c) by {
        assert(g.cell_wf(c));
        assert(later.cell(c) == with_threat_flag(
            g.cell(c),
            color,
            threat_flag(later.cell(c), color),
        ));
    }
    assert forall|side: Color, h: usize| h < ROSTER_SIZE implies #[trigger] later.piece_wf(
        side,
        h,
    ) by {
        assert(g.piece_wf(side, h));
        if let Some(c) = g.player(side).roster[h as int].location {
            assert(later.cell(c) == with_threat_flag(
                g.cell(c),
                color,
                threat_flag(later.cell(c), color),
            ));
        }
    }
}

impl Game {
    /// Of the displacements `attack_vecs`, those that lead from the piece to a cell on the
    /// board. A piece that stands nowhere has none.
    pub fn get_attack_vecs_in_bounds(&self, piece: &Piece, attack_vecs: Vec<(i32, i32)>) -> (kept:
        Vec<(i32, i32)>)
        ensures
            kept@ == match piece.location {
                Some(from) => vectors_in_bounds(from, attack_vecs@),
                None => Seq::empty(),
            },
    {
        let mut vecs_inbounds: Vec<(i32, i32)> = Vec::new();
        match piece.location {
            Some(location) => {
                let mut i: usize = 0;
                assert(attack_vecs@.take(0) =~= Seq::empty());
                while i < attack_vecs.len()
                    invariant
                        i <= attack_vecs.len(),
                        vecs_inbounds@ == vectors_in_bounds(location, attack_vecs@.take(i as int)),
                    decreases attack_vecs.len() - i,
                {
                    let attack_vec: (i32, i32) = attack_vecs[i];
                    let dx: i32 = attack_vec.0;
                    let dy: i32 = attack_vec.1;
                    proof {
                        assert(attack_vecs@.take(i + 1).drop_last() =~= attack_vecs@.take(i as int));
                        assert(attack_vecs@.take(i + 1).last() == attack_vec);
                    }
                    if !(dx == 0 && dy == 0) {
                        let x: i128 = location.x as i128 + dx as i128;
                        let y: i128 = location.y as i128 + dy as i128;
                        if x >= 0 && x <= 7 && y >= 0 && y <= 7 {
                            vecs_inbounds.push(attack_vec);
                        }
                    }
                    i = i + 1;
                }
                assert(attack_vecs@.take(attack_vecs.len() as int) =~= attack_vecs@);
            },
            None => (),
        }
        vecs_inbounds
    }

    /// For each of the directions `attack_vecs`, the displacement from the piece to the
    /// last cell on the board in that direction, where there is one. A piece that stands
    /// nowhere has none; one that stands somewhere stands on the board.
    pub fn get_attack_vecs_to_edge(&self, piece: &Piece, attack_vecs: Vec<(i32, i32)>) -> (reach:
        Vec<(i32, i32)>)
        requires
            piece.location matches Some(from) ==> from.in_bounds(),
        ensures
            reach@ == match piece.location {
                Some(from) => vectors_to_edge(from, attack_vecs@),
                None => Seq::empty(),
            },
    {
        let mut vecs_to_edge: Vec<(i32, i32)> = Vec::new();
        match piece.location {
            Some(location) => {
                let mut i: usize = 0;
                assert(attack_vecs@.take(0) =~= Seq::empty());
                while i < attack_vecs.len()
                    invariant
                        i <= attack_vecs.len(),
                        location.in_bounds(),
                        vecs_to_edge@ == vectors_to_edge(location, attack_vecs@.take(i as int)),
                    decreases attack_vecs.len() - i,
                {
                    let attack_vec: (i32, i32) = attack_vecs[i];
                    let dx: i64 = attack_vec.0 as i64;
                    let dy: i64 = attack_vec.1 as i64;
                    let ghost d = as_vector(attack_vec);
                    proof {
                        assert(attack_vecs@.take(i + 1).drop_last() =~= attack_vecs@.take(i as int));
                        assert(attack_vecs@.take(i + 1).last() == attack_vec);
                    }
                    if !(dx == 0 && dy == 0) {
                        let mut curr_x: i64 = location.x as i64 + dx;
                        let mut curr_y: i64 = location.y as i64 + dy;
                        let mut last_valid: Option<(i64, i64)> = None;
                        let ghost mut m: int = 0;
                        proof {
                            lemma_lattice_step(location, d, 0);
                        }
                        while curr_x >= 0 && curr_x <= 7 && curr_y >= 0 && curr_y <= 7
                            invariant
                                0 <= m,
                                d == (dx as int, dy as int),
                                d != (0int, 0int),
                                -0x8000_0000 <= dx <= 0x7fff_ffff,
                                -0x8000_0000 <= dy <= 0x7fff_ffff,
                                location.in_bounds(),
                                (curr_x as int, curr_y as int) == lattice_point(location, d, m + 1),
                                forall|k: int|
                                    1 <= k <= m ==> on_board(#[trigger] lattice_point(location, d, k)),
                                m == 0 <==> last_valid is None,
                                last_valid matches Some(p) ==> (p.0 as int, p.1 as int)
                                    == lattice_point(location, d, m),
                            decreases
                                    (if !(0 <= curr_x <= 7 && 0 <= curr_y <= 7) {
                                        0
                                    } else if dx > 0 {
                                        8 - curr_x
                                    } else if dx < 0 {
                                        curr_x + 1
                                    } else if dy > 0 {
                                        8 - curr_y
                                    } else {
                                        curr_y + 1
                                    }),
                        {
                            last_valid = Some((curr_x, curr_y));
                            proof {
                                lemma_lattice_step(location, d, m + 1);
                                m = m + 1;
                            }
                            curr_x = curr_x + dx;
                            curr_y = curr_y + dy;
                        }
                        proof {
                            lemma_steps_to_edge_unique(location, d, m);
                        }
                        match last_valid {
                            Some(point_of_edge) => {
                                vecs_to_edge.push(
                                    (
                                        (point_of_edge.0 - location.x as i64) as i32,
                                        (point_of_edge.1 - location.y as i64) as i32,
                                    ),
                                );
                            },
                            None => (),
                        }
                    } else {
                        assert(attack_vec == (0i32, 0i32));
                    }
                    i = i + 1;
                }
                assert(attack_vecs@.take(attack_vecs.len() as int) =~= attack_vecs@);
            },
            None => (),
        }
        vecs_to_edge
    }

    /// The cells that `piece`, standing on `source`, looks at for the displacement
    /// `attack`.
    fn attack_points(piece: &Piece, source: &LocationCoords, attack: &(i32, i32)) -> (points: Vec<
        LocationCoords,
    >)
        ensures
            points@ == attack_path(piece.piece_type, *source, *attack),
            forall|i: int| 0 <= i < points@.len() ==> (#[trigger] points@[i]).in_bounds(),
    {
        match piece.piece_type {
            PieceType::Knight => {
                let x: i128 = source.x as i128 + attack.0 as i128;
                let y: i128 = source.y as i128 + attack.1 as i128;
                let mut points: Vec<LocationCoords> = Vec::new();
                if x >= 0 && x <= 7 && y >= 0 && y <= 7 {
                    points.push(LocationCoords { x: x as usize, y: y as usize });
                }
                points
            },
            _ => {
                proof {
                    lemma_path_in_bounds(*source, as_vector(*attack), GatherPointsMode::Inclusive);
                }
                points_along_vector(source, attack, GatherPointsMode::Inclusive)
            },
        }
    }

    /// Raises the threat flags of the side of `piece` on the cells that it threatens by
    /// the displacements `attack_vecs`. Along each, the walk marks empty cells and goes
    /// on, marks a cell that holds an enemy piece and stops, and stops without a mark at
    /// a cell that holds a piece of its own side.
    pub fn set_attack_flags(&mut self, piece: &Piece, attack_vecs: &Vec<(i32, i32)>)
        requires
            old(self).wf(),
        ensures
            final(self).wf(),
            old(self)@.same_but_flags(final(self)@, piece.owner),
            forall|c: LocationCoords|
                c.in_bounds() ==> (threat_flag(#[trigger] final(self)@.cell(c), piece.owner) <==> (
                threat_flag(old(self)@.cell(c), piece.owner) || old(self)@.vectors_mark(
                    *piece,
                    attack_vecs@,
                    c,
                ))),
    {
        let ghost before = self@;
        let color: Color = piece.owner;
        match piece.location {
            Some(source) => {
                let mut n: usize = 0;
                while n < attack_vecs.len()
                    invariant
                        n <= attack_vecs.len(),
                        before.wf(),
                        piece.location == Some(source),
                        color == piece.owner,
                        before.same_but_flags(self@, color),
                        forall|c: LocationCoords|
                            c.in_bounds() ==> (threat_flag(#[trigger] self@.cell(c), color) <==> (
                            threat_flag(before.cell(c), color) || before.vectors_mark(
                                *piece,
                                attack_vecs@.take(n as int),
                                c,
                            ))),
                    decreases attack_vecs.len() - n,
                {
                    let ghost earlier = self@;
                    let attack_points: Vec<LocationCoords> = Self::attack_points(
                        piece,
                        &source,
                        &attack_vecs[n],
                    );
                    let ghost path = attack_points@;
                    let mut i: usize = 0;
                    let mut blocked: bool = false;
                    while i < attack_points.len() && !blocked
                        invariant
                            i <= attack_points.len(),
                            path == attack_points@,
                            before.wf(),
                            forall|j: int| 0 <= j < path.len() ==> (#[trigger] path[j]).in_bounds(),
                            before.same_but_flags(self@, color),
                            blocked ==> 0 < i && !before.is_empty(path[i - 1]),
                            before.walk_open(path, if blocked { i - 1 } else { i as int }),
                            forall|c: LocationCoords|
                                c.in_bounds() ==> (threat_flag(#[trigger] self@.cell(c), color) <==> (
                                threat_flag(earlier.cell(c), color) || exists|k: int|
                                    0 <= k < i && #[trigger] path[k] == c && before.walk_open(path, k)
                                        && before.occupant_color(c) != Some(color))),
                        decreases attack_points.len() - i,
                    {
                        let point: LocationCoords = attack_points[i];
                        let ghost current = self@;
                        assert(point.in_bounds());
                        assert(before.cell_wf(point));
                        assert(current.cell(point) == with_threat_flag(
                            before.cell(point),
                            color,
                            threat_flag(current.cell(point), color),
                        ));
                        let location: BoardLocation = *self.get_loc_cartesian(&point);
                        let mut attackable: bool = false;
                        match location.state {
                            LocationState::Empty => {
                                attackable = true;
                            },
                            LocationState::Occupied => {
                                blocked = true;
                                match location.piece {
                                    Some(other_piece) => {
                                        if other_piece.owner != color {
                                            attackable = true;
                                        }
                                    },
                                    None => (),
                                }
                            },
                        }
                        if attackable {
                            self.put_threat_flag(point, color, true);
                        }
                        proof {
                            assert(attackable <==> before.occupant_color(point) != Some(color));
                            assert forall|c: LocationCoords| c.in_bounds() implies #[trigger] self@.cell(
                                c,
                            ) == with_threat_flag(
                                before.cell(c),
                                color,
                                threat_flag(self@.cell(c), color),
                            ) by {
                                assert(current.cell(c) == with_threat_flag(
                                    before.cell(c),
                                    color,
                                    threat_flag(current.cell(c), color),
                                ));
                            }
                            assert forall|c: LocationCoords| c.in_bounds() implies (threat_flag(
                                #[trigger] self@.cell(c),
                                color,
                            ) <==> (threat_flag(earlier.cell(c), color) || exists|k: int|
                                0 <= k < i + 1 && #[trigger] path[k] == c && before.walk_open(path, k)
                                    && before.occupant_color(c) != Some(color))) by {
                                assert(threat_flag(current.cell(c), color) <==> (threat_flag(
                                    earlier.cell(c),
                                    color,
                                ) || exists|k: int|
                                    0 <= k < i && #[trigger] path[k] == c && before.walk_open(path, k)
                                        && before.occupant_color(c) != Some(color)));
                                if c == point && attackable {
                                    assert(path[i as int] == c && before.walk_open(path, i as int));
                                }
                            }
                        }
                        i = i + 1;
                    }
                    proof {
                        let taken = attack_vecs@.take(n as int);
                        let more = attack_vecs@.take(n + 1);
                        assert(more[n as int] == attack_vecs@[n as int]);
                        assert forall|c: LocationCoords| c.in_bounds() implies (threat_flag(
                            #[trigger] self@.cell(c),
                            color,
                        ) <==> (threat_flag(before.cell(c), color) || before.vectors_mark(
                            *piece,
                            more,
                            c,
                        ))) by {
                            let by_this = before.walk_marks(path, color, c);
                            assert(by_this <==> exists|k: int|
                                0 <= k < i && #[trigger] path[k] == c && before.walk_open(path, k)
                                    && before.occupant_color(c) != Some(color)) by {
                                if by_this {
                                    let k = choose|k: int|
                                        0 <= k < path.len() && #[trigger] path[k] == c
                                            && before.walk_open(path, k) && before.occupant_color(c)
                                            != Some(color);
                                    if k >= i {
                                        assert(blocked);
                                        assert(before.is_empty(path[i - 1]));
                                    }
                                }
                            }
                            assert(threat_flag(earlier.cell(c), color) <==> (threat_flag(
                                before.cell(c),
                                color,
                            ) || before.vectors_mark(*piece, taken, c)));
                            if before.vectors_mark(*piece, taken, c) {
                                let w = choose|w: int|
                                    0 <= w < taken.len() && before.walk_marks(
                                        attack_path(piece.piece_type, source, #[trigger] taken[w]),
                                        color,
                                        c,
                                    );
                                assert(more[w] == taken[w]);
                            }
                            if by_this {
                                assert(before.walk_marks(
                                    attack_path(piece.piece_type, source, more[n as int]),
                                    color,
                                    c,
                                ));
                            }
                            if before.vectors_mark(*piece, more, c) {
                                let w = choose|w: int|
                                    0 <= w < more.len() && before.walk_marks(
                                        attack_path(piece.piece_type, source, #[trigger] more[w]),
                                        color,
                                        c,
                                    );
                                if w < n {
                                    assert(taken[w] == more[w]);
                                }
                            }
                        }
                    }
                    n = n + 1;
                }
                proof {
                    assert(attack_vecs@.take(attack_vecs.len() as int) =~= attack_vecs@);
                    lemma_flags_keep_wf(before, self@, color);
                }
            },
            None => {
                proof {
                    assert forall|c: LocationCoords| c.in_bounds() implies #[trigger] self@.cell(c)
                        == with_threat_flag(
                        before.cell(c),
                        color,
                        threat_flag(self@.cell(c), color),
                    ) by {}
                }
            },
        }
    }

    /// Computes anew which cells the side `color` threatens: lowers its threat flags and
    /// raises them on the cells that its pieces in play threaten.
    pub fn generate_attack_map(&mut self, color: Color)
        requires
            old(self).wf(),
        ensures
            final(self).wf(),
            final(self)@ == old(self)@.with_attack_map(color),
    {
        let ghost before = self@;
        self.clear_attack_map(color);
        let count: usize = if self.player1.color == color {
            self.player1.pieces.len()
        } else {
            self.player2.pieces.len()
        };
        let mut i: usize = 0;
        while i < count
            invariant
                i <= count,
                before.wf(),
                count == before.player(color).pieces.len(),
                before.same_but_flags(self@, color),
                forall|c: LocationCoords|
                    c.in_bounds() ==> (threat_flag(#[trigger] self@.cell(c), color)
                        <==> before.threatened_by_first(color, i as int, c)),
            decreases count - i,
        {
            let ghost earlier = self@;
            let piece: Piece = if self.player1.color == color {
                self.player1.roster[self.player1.pieces[i]]
            } else {
                self.player2.roster[self.player2.pieces[i]]
            };
            proof {
                let handle = before.player(color).pieces[i as int];
                assert(piece == before.active_piece(color, i as int));
                assert(before.player(color).pieces.contains(handle));
                assert(before.piece_wf(color, handle));
                assert(before.player(color).pieces.contains(handle)
                    != before.player(color).dead_pieces.contains(handle));
                lemma_flags_keep_wf(before, earlier, color);
            }
            let attack_vecs: Vec<(i32, i32)> = match piece.piece_type {
                PieceType::Pawn => {
                    let forward: i32 = color.pawn_direction();
                    let attack_unit_vecs: Vec<(i32, i32)> = vec![(1, 1 * forward), (-1, 1 * forward)];
                    self.get_attack_vecs_in_bounds(&piece, attack_unit_vecs)
                },
                PieceType::Rook => {
                    let attack_unit_vecs: Vec<(i32, i32)> = vec![(1, 0), (-1, 0), (0, 1), (0, -1)];
                    self.get_attack_vecs_to_edge(&piece, attack_unit_vecs)
                },
                PieceType::Knight => {
                    let attack_unit_vecs: Vec<(i32, i32)> = vec![
                        (2, 1),
                        (2, -1),
                        (-2, 1),
                        (-2, -1),
                        (1, 2),
                        (1, -2),
                        (-1, 2),
                        (-1, -2),
                    ];
                    self.get_attack_vecs_in_bounds(&piece, attack_unit_vecs)
                },
                PieceType::Bishop => {
                    let attack_unit_vecs: Vec<(i32, i32)> = vec![(1, 1), (1, -1), (-1, 1), (-1, -1)];
                    self.get_attack_vecs_to_edge(&piece, attack_unit_vecs)
                },
                PieceType::Queen => {
                    let attack_unit_vecs: Vec<(i32, i32)> = vec![
                        (1, 1),
                        (1, -1),
                        (-1, 1),
                        (-1, -1),
                        (1, 0),
                        (-1, 0),
                        (0, 1),
                        (0, -1),
                    ];
                    assert(attack_unit_vecs@ =~= attack_directions(piece.piece_type, piece.owner));
                    self.get_attack_vecs_to_edge(&piece, attack_unit_vecs)
                },
                PieceType::King => {
                    let attack_unit_vecs: Vec<(i32, i32)> = vec![
                        (1, 1),
                        (1, -1),
                        (-1, 1),
                        (-1, -1),
                        (0, 1),
                        (0, -1),
                        (1, 0),
                        (-1, 0),
                    ];
                    self.get_attack_vecs_in_bounds(&piece, attack_unit_vecs)
                },
            };
            assert(attack_vecs@ == attack_vectors(piece));
            self.set_attack_flags(&piece, &attack_vecs);
            proof {
                assert forall|c: LocationCoords| c.in_bounds() implies #[trigger] self@.cell(c)
                    == with_threat_flag(
                    before.cell(c),
                    color,
                    threat_flag(self@.cell(c), color),
                ) by {
                    assert(earlier.cell(c) == with_threat_flag(
                        before.cell(c),
                        color,
                        threat_flag(earlier.cell(c), color),
                    ));
                }
                assert forall|c: LocationCoords| c.in_bounds() implies (threat_flag(
                    #[trigger] self@.cell(c),
                    color,
                ) <==> before.threatened_by_first(color, i + 1, c)) by {
                    crate::rays::lemma_marks_ignore_flags(
                        before,
                        earlier,
                        color,
                        piece,
                        attack_vecs@,
                        c,
                    );
                    crate::rays::lemma_marks_are_threats(before, piece, c);
                    assert(threat_flag(earlier.cell(c), color) <==> before.threatened_by_first(
                        color,
                        i as int,
                        c,
                    ));
                    if before.threatened_by_first(color, i as int, c) {
                        let w = choose|w: int|
                            0 <= w < i && before.piece_threatens(
                                #[trigger] before.active_piece(color, w),
                                c,
                            );
                        assert(before.threatened_by_first(color, i + 1, c));
                    }
                    if before.piece_threatens(piece, c) {
                        assert(before.piece_threatens(before.active_piece(color, i as int), c));
                        assert(before.threatened_by_first(color, i + 1, c));
                    }
                    if before.threatened_by_first(color, i + 1, c) {
                        let w = choose|w: int|
                            0 <= w < i + 1 && before.piece_threatens(
                                #[trigger] before.active_piece(color, w),
                                c,
                            );
                        if w < i {
                            assert(before.threatened_by_first(color, i as int, c));
                        }
                    }
                }
            }
            i = i + 1;
        }
        proof {
            let expected = before.with_attack_map(color);
            lemma_flags_keep_wf(before, self@, color);
            assert forall|y: int, x: int| 0 <= y < BOARD_SIZE && 0 <= x < BOARD_SIZE implies
                #[trigger] self@.board[y][x] == expected.board[y][x] by {
                let c = LocationCoords { x: x as usize, y: y as usize };
                assert(c.in_bounds());
                assert(self@.cell(c) == with_threat_flag(
                    before.cell(c),
                    color,
                    threat_flag(self@.cell(c), color),
                ));
            }
            assert(self@.board =~~= expected.board);
        }
    }

    /// Sets the threat flag of the cell at `at` for the side `color`.
    pub fn put_threat_flag(&mut self, at: LocationCoords, color: Color, flag: bool)
        requires
            old(self)@.board_shaped(),
            at.in_bounds(),
        ensures
            final(self)@.board_shaped(),
            final(self)@.player1 == old(self)@.player1,
            final(self)@.player2 == old(self)@.player2,
            final(self)@.current_player == old(self)@.current_player,
            forall|c: LocationCoords|
                c.in_bounds() ==> #[trigger] final(self)@.cell(c) == (if c == at {
                    with_threat_flag(old(self)@.cell(c), color, flag)
                } else {
                    old(self)@.cell(c)
                }),
    {
        let ghost earlier = self@;
        let ghost rows = self.board@;
        assert(self@.board[at.y as int] == self.board@[at.y as int]@);
        match color {
            Color::White => {
                self.board[at.y][at.x].white_attackable = flag;
            },
            Color::Black => {
                self.board[at.y][at.x].black_attackable = flag;
            },
        }
        proof {
            assert forall|c: LocationCoords| c.in_bounds() implies #[trigger] self@.cell(c) == (if c
                == at {
                with_threat_flag(earlier.cell(c), color, flag)
            } else {
                earlier.cell(c)
            }) by {
                assert(self@.cell(c) == self.board@[c.y as int]@[c.x as int]);
                assert(earlier.cell(c) == rows[c.y as int]@[c.x as int]);
            }
            assert forall|r: int| 0 <= r < BOARD_SIZE implies (#[trigger] self@.board[r]).len()
                == BOARD_SIZE by {
                assert(self@.board[r] == self.board@[r]@);
                assert(earlier.board[r] == rows[r]@);
            }
        }
    }

    /// Lowers every threat flag of the side `color`.
    pub fn clear_attack_map(&mut self, color: Color)
        requires
            old(self)@.board_shaped(),
        ensures
            old(self)@.same_but_flags(final(self)@, color),
            forall|c: LocationCoords|
                c.in_bounds() ==> !threat_flag(#[trigger] final(self)@.cell(c), color),
    {
        let ghost before = self@;
        let mut y: usize = 0;
        while y < BOARD_SIZE
            invariant
                y <= BOARD_SIZE,
                before.same_but_flags(self@, color),
                forall|c: LocationCoords|
                    c.in_bounds() && c.y < y ==> !threat_flag(#[trigger] self@.cell(c), color),
            decreases BOARD_SIZE - y,
        {
            let mut x: usize = 0;
            while x < BOARD_SIZE
                invariant
                    x <= BOARD_SIZE,
                    y < BOARD_SIZE,
                    before.same_but_flags(self@, color),
                    forall|c: LocationCoords|
                        c.in_bounds() && (c.y < y || (c.y == y && c.x < x)) ==> !threat_flag(
                            #[trigger] self@.cell(c),
                            color,
                        ),
                decreases BOARD_SIZE - x,
            {
                let ghost earlier = self@;
                self.put_threat_flag(LocationCoords { x, y }, color, false);
                proof {
                    assert forall|c: LocationCoords| c.in_bounds() implies #[trigger] self@.cell(c)
                        == with_threat_flag(
                        before.cell(c),
                        color,
                        threat_flag(self@.cell(c), color),
                    ) by {
                        assert(earlier.cell(c) == with_threat_flag(
                            before.cell(c),
                            color,
                            threat_flag(earlier.cell(c), color),
                        ));
                    }
                }
                x = x + 1;
            }
            y = y + 1;
        }
    }
}

} // verus!
