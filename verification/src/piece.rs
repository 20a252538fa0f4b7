//! Pieces and what each kind of piece is able to do.

use vstd::prelude::*;

use crate::location::LocationCoords;
use crate::player::Color;
use crate::utils::{same_direction, vectors_same_direction};

verus! {

/// The kinds of piece.
#[derive(Clone, Copy, Debug, PartialEq, Eq, Structural)]
pub enum PieceType {
    Pawn,
    Rook,
    Knight,
    Bishop,
    Queen,
    King,
}

/// Names a piece for as long as the game lasts: the side that owns it and its place in
/// that side's roster.
#[derive(Clone, Copy, Debug, PartialEq, Eq, Structural)]
pub struct PieceRef {
    pub owner: Color,
    pub index: usize,
}

/// A piece. `location` is the cell it stands on, or `None` once it has been captured.
#[derive(Clone, Copy, Debug, PartialEq, Eq, Structural)]
pub struct Piece {
    pub piece_type: PieceType,
    pub owner: Color,
    pub id: u128,
    pub has_moved: bool,
    pub location: Option<LocationCoords>,
}

/// The magnitude of an integer.
pub open spec fn magnitude(n: int) -> int {
    if n < 0 {
        -n
    } else {
        n
    }
}

/// Along a rank or along a file, by at least one cell.
pub open spec fn is_straight(v: (int, int)) -> bool {
    (v.0 == 0) != (v.1 == 0)
}

/// Along a diagonal, by at least one cell.
pub open spec fn is_diagonal(v: (int, int)) -> bool {
    v.0 != 0 && magnitude(v.0) == magnitude(v.1)
}

/// One cell one way and two the other.
pub open spec fn is_knight_jump(v: (int, int)) -> bool {
    ||| magnitude(v.0) == 1 && magnitude(v.1) == 2
    ||| magnitude(v.0) == 2 && magnitude(v.1) == 1
}

/// To a neighbouring cell.
pub open spec fn is_king_step(v: (int, int)) -> bool {
    &&& magnitude(v.0) <= 1
    &&& magnitude(v.1) <= 1
    &&& v != (0int, 0int)
}

/// Whether a piece of the given kind, side and history may move by `v` onto an empty cell.
pub open spec fn legal_move(piece_type: PieceType, owner: Color, has_moved: bool, v: (int, int)) -> bool {
    match piece_type {
        PieceType::Pawn => {
            &&& v.0 == 0
            &&& v.1 == owner.forward() || (!has_moved && v.1 == 2 * owner.forward())
        },
        PieceType::Rook => is_straight(v),
        PieceType::Knight => is_knight_jump(v),
        PieceType::Bishop => is_diagonal(v),
        PieceType::Queen => is_straight(v) || is_diagonal(v),
        PieceType::King => is_king_step(v),
    }
}

/// Whether a piece of the given kind, side and history may capture by moving by `v`. Only
/// pawns capture otherwise than they move: one cell diagonally forward.
pub open spec fn legal_attack(piece_type: PieceType, owner: Color, has_moved: bool, v: (int, int)) -> bool {
    match piece_type {
        PieceType::Pawn => magnitude(v.0) == 1 && v.1 == owner.forward(),
        _ => legal_move(piece_type, owner, has_moved, v),
    }
}

/// The four directions along ranks and files.
pub open spec fn straight_directions() -> Seq<(i32, i32)> {
    seq![(1i32, 0i32), (-1i32, 0i32), (0i32, 1i32), (0i32, -1i32)]
}

/// The four diagonal directions.
pub open spec fn diagonal_directions() -> Seq<(i32, i32)> {
    seq![(1i32, 1i32), (1i32, -1i32), (-1i32, 1i32), (-1i32, -1i32)]
}

/// The displacement `v` points along one of `directions`.
pub open spec fn points_along_one_of(directions: Seq<(i32, i32)>, v: (int, int)) -> bool {
    exists|i: int|
        0 <= i < directions.len() && same_direction(
            (#[trigger] directions[i].0 as int, directions[i].1 as int),
            v,
        )
}

/// A product with a factor of magnitude at most one.
proof fn lemma_unit_product(c: int, x: int)
    requires
        -1 <= c <= 1,
    ensures
        c * x == (if c == 1 {
            x
        } else if c == -1 {
            -x
        } else {
            0
        }),
{
    assert(c * x == (if c == 1 {
        x
    } else if c == -1 {
        -x
    } else {
        0
    })) by (nonlinear_arith)
        requires
            -1 <= c <= 1,
    ;
}

/// The four products that decide whether `v` points along a direction whose components
/// have magnitude at most one.
pub proof fn lemma_unit_products(a: (int, int), v: (int, int))
    requires
        -1 <= a.0 <= 1,
        -1 <= a.1 <= 1,
    ensures
        a.0 * v.0 == (if a.0 == 1 { v.0 } else if a.0 == -1 { -v.0 } else { 0 }),
        a.0 * v.1 == (if a.0 == 1 { v.1 } else if a.0 == -1 { -v.1 } else { 0 }),
        a.1 * v.0 == (if a.1 == 1 { v.0 } else if a.1 == -1 { -v.0 } else { 0 }),
        a.1 * v.1 == (if a.1 == 1 { v.1 } else if a.1 == -1 { -v.1 } else { 0 }),
{
    lemma_unit_product(a.0, v.0);
    lemma_unit_product(a.0, v.1);
    lemma_unit_product(a.1, v.0);
    lemma_unit_product(a.1, v.1);
}

/// A displacement is straight exactly when it points along one of the four straight
/// directions, and diagonal exactly when it points along one of the four diagonals.
pub proof fn lemma_directions_cover(v: (int, int))
    ensures
        points_along_one_of(straight_directions(), v) == is_straight(v),
        points_along_one_of(diagonal_directions(), v) == is_diagonal(v),
{
    let s = straight_directions();
    let d = diagonal_directions();
    assert forall|i: int| 0 <= i < 4 implies {
        &&& -1 <= (#[trigger] s[i]).0 <= 1
        &&& -1 <= s[i].1 <= 1
        &&& -1 <= (#[trigger] d[i]).0 <= 1
        &&& -1 <= d[i].1 <= 1
    } by {
        assert(i == 0 || i == 1 || i == 2 || i == 3);
    }
    lemma_unit_products((s[0].0 as int, s[0].1 as int), v);
    lemma_unit_products((s[1].0 as int, s[1].1 as int), v);
    lemma_unit_products((s[2].0 as int, s[2].1 as int), v);
    lemma_unit_products((s[3].0 as int, s[3].1 as int), v);
    lemma_unit_products((d[0].0 as int, d[0].1 as int), v);
    lemma_unit_products((d[1].0 as int, d[1].1 as int), v);
    lemma_unit_products((d[2].0 as int, d[2].1 as int), v);
    lemma_unit_products((d[3].0 as int, d[3].1 as int), v);
    if points_along_one_of(s, v) {
        let i = choose|i: int|
            0 <= i < s.len() && same_direction((#[trigger] s[i].0 as int, s[i].1 as int), v);
        assert(i == 0 || i == 1 || i == 2 || i == 3);
    }
    if points_along_one_of(d, v) {
        let i = choose|i: int|
            0 <= i < d.len() && same_direction((#[trigger] d[i].0 as int, d[i].1 as int), v);
        assert(i == 0 || i == 1 || i == 2 || i == 3);
    }
    if is_straight(v) {
        if v.0 > 0 {
            assert(same_direction((s[0].0 as int, s[0].1 as int), v));
        } else if v.0 < 0 {
            assert(same_direction((s[1].0 as int, s[1].1 as int), v));
        } else if v.1 > 0 {
            assert(same_direction((s[2].0 as int, s[2].1 as int), v));
        } else {
            assert(same_direction((s[3].0 as int, s[3].1 as int), v));
        }
    }
    if is_diagonal(v) {
        if v.0 > 0 && v.1 > 0 {
            assert(same_direction((d[0].0 as int, d[0].1 as int), v));
        } else if v.0 > 0 {
            assert(same_direction((d[1].0 as int, d[1].1 as int), v));
        } else if v.1 > 0 {
            assert(same_direction((d[2].0 as int, d[2].1 as int), v));
        } else {
            assert(same_direction((d[3].0 as int, d[3].1 as int), v));
        }
    }
}

/// Whether `move_vec` points along one of `directions`.
fn matches_a_direction(directions: &Vec<(i32, i32)>, move_vec: &(i32, i32)) -> (found: bool)
    ensures
        found == points_along_one_of(directions@, (move_vec.0 as int, move_vec.1 as int)),
{
    let mut i: usize = 0;
    while i < directions.len()
        invariant
            i <= directions.len(),
            forall|j: int|
                0 <= j < i ==> !same_direction(
                    (#[trigger] directions@[j].0 as int, directions@[j].1 as int),
                    (move_vec.0 as int, move_vec.1 as int),
                ),
        decreases directions.len() - i,
    {
        if vectors_same_direction(&directions[i], move_vec) {
            return true;
        }
        i = i + 1;
    }
    false
}

impl Piece {
    /// Whether this piece may move by `v` onto an empty cell.
    pub open spec fn can_move(&self, v: (int, int)) -> bool {
        legal_move(self.piece_type, self.owner, self.has_moved, v)
    }

    /// Whether this piece may capture by moving by `v`.
    pub open spec fn can_attack(&self, v: (int, int)) -> bool {
        legal_attack(self.piece_type, self.owner, self.has_moved, v)
    }

    /// Whether this piece may capture by moving by `attack_vec`.
    pub fn validate_attack(&self, attack_vec: &(i32, i32)) -> (ok: bool)
        ensures
            ok == self.can_attack((attack_vec.0 as int, attack_vec.1 as int)),
    {
        match self.piece_type {
            PieceType::Pawn => {
                let sideways: bool = attack_vec.0 == 1 || attack_vec.0 == -1;
                sideways && attack_vec.1 == self.owner.pawn_direction()
            },
            _ => self.validate_move(attack_vec),
        }
    }

    /// Whether this piece may move by `move_vec` onto an empty cell.
    pub fn validate_move(&self, move_vec: &(i32, i32)) -> (ok: bool)
        ensures
            ok == self.can_move((move_vec.0 as int, move_vec.1 as int)),
    {
        let dx: i64 = move_vec.0 as i64;
        let dy: i64 = move_vec.1 as i64;
        let across: i64 = if dx < 0 { -dx } else { dx };
        let along: i64 = if dy < 0 { -dy } else { dy };
        proof {
            lemma_directions_cover((move_vec.0 as int, move_vec.1 as int));
        }
        match self.piece_type {
            PieceType::Pawn => {
                let forward: i64 = self.owner.pawn_direction() as i64;
                if dx != 0 {
                    false
                } else if !self.has_moved {
                    dy == forward || dy == 2 * forward
                } else {
                    dy == forward
                }
            },
            PieceType::Rook => {
                let valid_vecs: Vec<(i32, i32)> = vec![(1, 0), (-1, 0), (0, 1), (0, -1)];
                matches_a_direction(&valid_vecs, move_vec)
            },
            PieceType::Knight => (across == 1 && along == 2) || (across == 2 && along == 1),
            PieceType::Bishop => {
                let valid_vecs: Vec<(i32, i32)> = vec![(1, 1), (1, -1), (-1, 1), (-1, -1)];
                matches_a_direction(&valid_vecs, move_vec)
            },
            PieceType::Queen => {
                let straight: Vec<(i32, i32)> = vec![(1, 0), (-1, 0), (0, 1), (0, -1)];
                let diagonal: Vec<(i32, i32)> = vec![(1, 1), (1, -1), (-1, 1), (-1, -1)];
                matches_a_direction(&straight, move_vec) || matches_a_direction(
                    &diagonal,
                    move_vec,
                )
            },
            PieceType::King => across <= 1 && along <= 1 && !(dx == 0 && dy == 0),
        }
    }
}

} // verus!
