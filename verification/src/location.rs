//! Board coordinates and the cells of the board.

use vstd::prelude::*;

use crate::piece::PieceRef;

verus! {

/// The board has this many files and this many ranks.
pub const BOARD_SIZE: usize = 8;

/// A cell's position: `x` counts files, `y` counts ranks, both from zero.
#[derive(Clone, Copy, Debug, PartialEq, Eq, Structural)]
pub struct LocationCoords {
    pub x: usize,
    pub y: usize,
}

/// Whether a cell holds a piece.
#[derive(Clone, Copy, Debug, PartialEq, Eq, Structural)]
pub enum LocationState {
    Empty,
    Occupied,
}

/// One cell of the board: where it is, what stands on it, and which side threatens it.
#[derive(Clone, Copy, Debug, PartialEq, Eq, Structural)]
pub struct BoardLocation {
    pub coords: LocationCoords,
    pub state: LocationState,
    pub piece: Option<PieceRef>,
    pub white_attackable: bool,
    pub black_attackable: bool,
}

/// The lattice point `(x, y)` lies on the board.
pub open spec fn on_board(p: (int, int)) -> bool {
    0 <= p.0 < BOARD_SIZE && 0 <= p.1 < BOARD_SIZE
}

impl LocationCoords {
    /// The coordinate as a lattice point.
    pub open spec fn point(self) -> (int, int) {
        (self.x as int, self.y as int)
    }

    /// Both axes are within the board.
    pub open spec fn in_bounds(self) -> bool {
        self.x < BOARD_SIZE && self.y < BOARD_SIZE
    }

    /// The coordinate of a lattice point that lies on the board.
    pub open spec fn at(p: (int, int)) -> LocationCoords
        recommends
            on_board(p),
    {
        LocationCoords { x: p.0 as usize, y: p.1 as usize }
    }

    /// Whether the coordinate lies on the board.
    pub fn is_in_bounds(&self) -> (inside: bool)
        ensures
            inside == self.in_bounds(),
    {
        self.x < BOARD_SIZE && self.y < BOARD_SIZE
    }
}

} // verus!
