//! Checking at run time that the records of a player or of a game agree with each other.

use vstd::prelude::*;

use crate::game::{Game, GameView};
use crate::location::{BoardLocation, LocationCoords, LocationState, BOARD_SIZE};
use crate::piece::{Piece, PieceType};
use crate::player::{piece_type_at, Color, Player, KING_INDEX, ROSTER_SIZE};

verus! {

/// Whether `handle` occurs in `list`.
pub fn is_listed(list: &Vec<usize>, handle: usize) -> (found: bool)
    ensures
        found == list@.contains(handle),
{
    let mut i: usize = 0;
    while i < list.len()
        invariant
            i <= list.len(),
            forall|j: int| 0 <= j < i ==> list@[j] != handle,
        decreases list.len() - i,
    {
        if list[i] == handle {
            return true;
        }
        i = i + 1;
    }
    false
}

/// Whether every entry of `list` is below `bound` and none occurs twice.
fn is_proper_list(list: &Vec<usize>, bound: usize) -> (ok: bool)
    ensures
        ok == (list@.no_duplicates() && forall|i: int|
            0 <= i < list@.len() ==> #[trigger] list@[i] < bound),
{
    let mut i: usize = 0;
    while i < list.len()
        invariant
            i <= list.len(),
            forall|k: int| 0 <= k < i ==> #[trigger] list@[k] < bound,
            forall|a: int, b: int| 0 <= a < b < i ==> list@[a] != list@[b],
        decreases list.len() - i,
    {
        if list[i] >= bound {
            return false;
        }
        let mut j: usize = 0;
        while j < i
            invariant
                j <= i,
                i < list.len(),
                forall|a: int| 0 <= a < j ==> list@[a] != list@[i as int],
            decreases i - j,
        {
            if list[j] == list[i] {
                return false;
            }
            j = j + 1;
        }
        i = i + 1;
    }
    true
}

impl Player {
    /// Whether the player's records agree with each other.
    pub fn is_consistent(&self) -> (ok: bool)
        ensures
            ok == self.wf(),
    {
        if self.pawn_direction != self.color.pawn_direction() {
            return false;
        }
        if self.piece_char != self.color.piece_char() {
            return false;
        }
        if !is_proper_list(&self.pieces, self.roster.len()) {
            return false;
        }
        if !is_proper_list(&self.dead_pieces, self.roster.len()) {
            return false;
        }
        let mut h: usize = 0;
        while h < self.roster.len()
            invariant
                h <= self.roster.len(),
                forall|k: int| 0 <= k < h ==> (#[trigger] self@.roster[k]).owner == self.color,
                forall|k: usize|
                    k < h ==> (#[trigger] self@.pieces.contains(k)
                        != #[trigger] self@.dead_pieces.contains(k)),
            decreases self.roster.len() - h,
        {
            if self.roster[h].owner != self.color {
                assert(self@.roster[h as int].owner != self.color);
                return false;
            }
            if is_listed(&self.pieces, h) == is_listed(&self.dead_pieces, h) {
                return false;
            }
            h = h + 1;
        }
        match self.king {
            Some(k) => {
                if k >= self.roster.len() {
                    return false;
                }
                match self.roster[k].piece_type {
                    PieceType::King => true,
                    _ => false,
                }
            },
            None => true,
        }
    }
}

/// Whether two optional coordinates are the same.
fn same_place(a: Option<LocationCoords>, b: LocationCoords) -> (same: bool)
    ensures
        same == (a == Some(b)),
{
    match a {
        Some(c) => c.x == b.x && c.y == b.y,
        None => false,
    }
}

impl Game {
    /// Whether the board has eight ranks of eight cells.
    fn is_board_shaped(&self) -> (ok: bool)
        ensures
            ok == self@.board_shaped(),
    {
        if self.board.len() != BOARD_SIZE {
            return false;
        }
        let mut y: usize = 0;
        while y < BOARD_SIZE
            invariant
                y <= BOARD_SIZE,
                self.board@.len() == BOARD_SIZE,
                forall|r: int| 0 <= r < y ==> (#[trigger] self@.board[r]).len() == BOARD_SIZE,
            decreases BOARD_SIZE - y,
        {
            assert(self@.board[y as int] == self.board@[y as int]@);
            if self.board[y].len() != BOARD_SIZE {
                return false;
            }
            y = y + 1;
        }
        true
    }

    /// Whether the player holds the sixteen pieces of a side, with the king named.
    fn has_standard_roster(player: &Player) -> (ok: bool)
        ensures
            ok == GameView::standard_roster(player@),
    {
        if player.roster.len() != ROSTER_SIZE {
            return false;
        }
        match player.king {
            Some(k) => {
                if k != KING_INDEX {
                    return false;
                }
            },
            None => {
                return false;
            },
        }
        let mut h: usize = 0;
        while h < ROSTER_SIZE
            invariant
                h <= ROSTER_SIZE,
                player.roster@.len() == ROSTER_SIZE,
                forall|k: int|
                    0 <= k < h ==> (#[trigger] player@.roster[k]).piece_type
                        == crate::player::standard_piece_type(k),
            decreases ROSTER_SIZE - h,
        {
            if player.roster[h].piece_type != piece_type_at(h) {
                assert(player@.roster[h as int].piece_type != crate::player::standard_piece_type(
                    h as int,
                ));
                return false;
            }
            h = h + 1;
        }
        true
    }

    /// Whether the cell at `c` agrees with the pieces.
    fn is_cell_consistent(&self, c: LocationCoords) -> (ok: bool)
        requires
            self@.board_shaped(),
            self@.player1.roster.len() == ROSTER_SIZE,
            self@.player2.roster.len() == ROSTER_SIZE,
            c.in_bounds(),
        ensures
            ok == self@.cell_wf(c),
    {
        let cell: BoardLocation = *self.get_loc_cartesian(&c);
        if !(cell.coords.x == c.x && cell.coords.y == c.y) {
            return false;
        }
        match cell.piece {
            Some(r) => {
                match cell.state {
                    LocationState::Empty => {
                        return false;
                    },
                    LocationState::Occupied => (),
                }
                if r.index >= ROSTER_SIZE {
                    return false;
                }
                let piece: Piece = self.piece(r);
                same_place(piece.location, c)
            },
            None => {
                match cell.state {
                    LocationState::Empty => true,
                    LocationState::Occupied => false,
                }
            },
        }
    }

    /// Whether the piece at index `h` of the roster of `player` agrees with the board.
    fn is_piece_consistent(&self, player: &Player, h: usize) -> (ok: bool)
        requires
            self@.board_shaped(),
            player@ == self@.player(player.color),
            player@.roster.len() == ROSTER_SIZE,
            h < ROSTER_SIZE,
        ensures
            ok == self@.piece_wf(player.color, h),
    {
        match player.roster[h].location {
            Some(c) => {
                if !c.is_in_bounds() {
                    return false;
                }
                let cell: BoardLocation = *self.get_loc_cartesian(&c);
                match cell.piece {
                    Some(r) => {
                        if !(r.owner == player.color && r.index == h) {
                            return false;
                        }
                    },
                    None => {
                        return false;
                    },
                }
                is_listed(&player.pieces, h)
            },
            None => is_listed(&player.dead_pieces, h),
        }
    }

    /// Whether the game is consistent: whether it meets the invariant that every
    /// operation on a game relies on and keeps.
    pub fn is_consistent(&self) -> (ok: bool)
        ensures
            ok == self.wf(),
    {
        if !self.is_board_shaped() {
            return false;
        }
        if self.player1.color == self.player2.color {
            return false;
        }
        if !self.player1.is_consistent() || !self.player2.is_consistent() {
            return false;
        }
        if !Self::has_standard_roster(&self.player1) || !Self::has_standard_roster(&self.player2) {
            return false;
        }
        let mut y: usize = 0;
        while y < BOARD_SIZE
            invariant
                y <= BOARD_SIZE,
                self@.board_shaped(),
                self@.player1.roster.len() == ROSTER_SIZE,
                self@.player2.roster.len() == ROSTER_SIZE,
                forall|c: LocationCoords| c.in_bounds() && c.y < y ==> #[trigger] self@.cell_wf(c),
            decreases BOARD_SIZE - y,
        {
            let mut x: usize = 0;
            while x < BOARD_SIZE
                invariant
                    x <= BOARD_SIZE,
                    y < BOARD_SIZE,
                    self@.board_shaped(),
                    self@.player1.roster.len() == ROSTER_SIZE,
                    self@.player2.roster.len() == ROSTER_SIZE,
                    forall|c: LocationCoords|
                        c.in_bounds() && (c.y < y || (c.y == y && c.x < x))
                            ==> #[trigger] self@.cell_wf(c),
                decreases BOARD_SIZE - x,
            {
                if !self.is_cell_consistent(LocationCoords { x, y }) {
                    return false;
                }
                x = x + 1;
            }
            y = y + 1;
        }
        let mut h: usize = 0;
        while h < ROSTER_SIZE
            invariant
                h <= ROSTER_SIZE,
                self@.board_shaped(),
                self@.player1.color != self@.player2.color,
                self@.player1.roster.len() == ROSTER_SIZE,
                self@.player2.roster.len() == ROSTER_SIZE,
                forall|color: Color, k: usize| k < h ==> #[trigger] self@.piece_wf(color, k),
            decreases ROSTER_SIZE - h,
        {
            if !self.is_piece_consistent(&self.player1, h) {
                return false;
            }
            if !self.is_piece_consistent(&self.player2, h) {
                return false;
            }
            proof {
                assert forall|color: Color| #[trigger] self@.piece_wf(color, h) by {
                    if color == self.player1.color {
                    } else {
                        assert(color == self.player2.color);
                    }
                }
            }
            h = h + 1;
        }
        true
    }
}

} // verus!
