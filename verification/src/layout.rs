//! The starting position: where each piece of each player stands when a game begins.

use vstd::prelude::*;

use crate::game::GameView;
use crate::location::{BoardLocation, LocationCoords, LocationState};
use crate::piece::{Piece, PieceRef};
use crate::player::{
    is_random_uuid,
    standard_piece_type,
    Color,
    PlayerView,
    KING_INDEX,
    ROSTER_SIZE,
};

verus! {

/// The cell on which the piece at index `h` of a roster starts. The first player's pawns
/// stand on rank 6 and the other pieces on rank 7, in the order of the roster. The second
/// player's pieces mirror them on ranks 1 and 0, in reverse order but for queen and king,
/// so that each queen and each king faces its like.
pub open spec fn home_square(first: bool, h: int) -> LocationCoords {
    if first {
        if h < 8 {
            LocationCoords { x: h as usize, y: 6 }
        } else {
            LocationCoords { x: (h - 8) as usize, y: 7 }
        }
    } else {
        if h < 8 {
            LocationCoords { x: (7 - h) as usize, y: 1 }
        } else if h == 11 {
            LocationCoords { x: 3, y: 0 }
        } else if h == 12 {
            LocationCoords { x: 4, y: 0 }
        } else {
            LocationCoords { x: (15 - h) as usize, y: 0 }
        }
    }
}

/// The piece that starts on `c`: whether it is the first player's, and its index in the
/// roster. The four middle ranks start empty.
pub open spec fn home_piece(c: LocationCoords) -> Option<(bool, usize)> {
    if c.y == 6 {
        Some((true, c.x))
    } else if c.y == 7 {
        Some((true, (c.x + 8) as usize))
    } else if c.y == 1 {
        Some((false, (7 - c.x) as usize))
    } else if c.y == 0 {
        if c.x == 3 {
            Some((false, 11usize))
        } else if c.x == 4 {
            Some((false, 12usize))
        } else {
            Some((false, (15 - c.x) as usize))
        }
    } else {
        None
    }
}

/// A player at the start of a game: the sixteen pieces, none of which has moved, each on
/// its home square and in play, with a random UUID for identifier.
pub open spec fn start_player(p: PlayerView, first: bool) -> bool {
    &&& p.pawn_direction == p.color.forward()
    &&& p.piece_char == p.color.mark()
    &&& p.king == Some(KING_INDEX)
    &&& p.dead_pieces == Seq::<usize>::empty()
    &&& p.pieces == Seq::new(ROSTER_SIZE as nat, |i: int| i as usize)
    &&& p.roster.len() == ROSTER_SIZE
    &&& forall|h: int|
        0 <= h < ROSTER_SIZE ==> is_random_uuid((#[trigger] p.roster[h]).id) && p.roster[h] == (Piece {
            piece_type: standard_piece_type(h),
            owner: p.color,
            id: p.roster[h].id,
            has_moved: false,
            location: Some(home_square(first, h)),
        })
}

/// The cell at `c` as it is at the start of a game between a first player of side
/// `first_color` and a second player of side `second_color`.
pub open spec fn start_cell(first_color: Color, second_color: Color, c: LocationCoords) -> BoardLocation {
    match home_piece(c) {
        Some((first, h)) => BoardLocation {
            coords: c,
            state: LocationState::Occupied,
            piece: Some(
                PieceRef {
                    owner: if first {
                        first_color
                    } else {
                        second_color
                    },
                    index: h,
                },
            ),
            white_attackable: false,
            black_attackable: false,
        },
        None => BoardLocation {
            coords: c,
            state: LocationState::Empty,
            piece: None,
            white_attackable: false,
            black_attackable: false,
        },
    }
}

impl GameView {
    /// The game stands at its starting position, with the first player to move and no
    /// threat recorded.
    pub open spec fn is_start_position(self) -> bool {
        &&& self.board_shaped()
        &&& forall|c: LocationCoords|
            c.in_bounds() ==> #[trigger] self.cell(c) == start_cell(
                self.player1.color,
                self.player2.color,
                c,
            )
        &&& start_player(self.player1, true)
        &&& start_player(self.player2, false)
        &&& self.current_player == self.player1.color
    }
}

/// The cell on which the piece at index `h` of a roster starts.
pub fn home_of(first: bool, h: usize) -> (c: LocationCoords)
    requires
        h < ROSTER_SIZE,
    ensures
        c == home_square(first, h as int),
{
    if first {
        if h < 8 {
            LocationCoords { x: h, y: 6 }
        } else {
            LocationCoords { x: h - 8, y: 7 }
        }
    } else {
        if h < 8 {
            LocationCoords { x: 7 - h, y: 1 }
        } else if h == 11 {
            LocationCoords { x: 3, y: 0 }
        } else if h == 12 {
            LocationCoords { x: 4, y: 0 }
        } else {
            LocationCoords { x: 15 - h, y: 0 }
        }
    }
}

/// The cell at `c` as it is at the start of a game.
pub fn starting_cell(first_color: Color, second_color: Color, c: LocationCoords) -> (cell:
    BoardLocation)
    requires
        c.in_bounds(),
    ensures
        cell == start_cell(first_color, second_color, c),
{
    let starts: Option<PieceRef> = if c.y == 6 {
        Some(PieceRef { owner: first_color, index: c.x })
    } else if c.y == 7 {
        Some(PieceRef { owner: first_color, index: c.x + 8 })
    } else if c.y == 1 {
        Some(PieceRef { owner: second_color, index: 7 - c.x })
    } else if c.y == 0 {
        if c.x == 3 {
            Some(PieceRef { owner: second_color, index: 11 })
        } else if c.x == 4 {
            Some(PieceRef { owner: second_color, index: 12 })
        } else {
            Some(PieceRef { owner: second_color, index: 15 - c.x })
        }
    } else {
        None
    };
    match starts {
        Some(r) => BoardLocation {
            coords: c,
            state: LocationState::Occupied,
            piece: Some(r),
            white_attackable: false,
            black_attackable: false,
        },
        None => BoardLocation {
            coords: c,
            state: LocationState::Empty,
            piece: None,
            white_attackable: false,
            black_attackable: false,
        },
    }
}

/// Home squares lie on the board, and the piece that starts on a piece's home square is
/// that piece.
pub proof fn lemma_home_squares(first: bool, h: int)
    requires
        0 <= h < ROSTER_SIZE,
    ensures
        home_square(first, h).in_bounds(),
        home_piece(home_square(first, h)) == Some((first, h as usize)),
{
}

/// A cell on which a piece starts is that piece's home square.
pub proof fn lemma_home_pieces(c: LocationCoords)
    requires
        c.in_bounds(),
    ensures
        home_piece(c) matches Some((first, h)) ==> h < ROSTER_SIZE && home_square(first, h as int)
            == c,
{
}

/// A player at the start of a game has consistent records.
pub proof fn lemma_start_player_wf(p: PlayerView, first: bool)
    requires
        start_player(p, first),
    ensures
        p.wf(),
        GameView::standard_roster(p),
        forall|h: usize| h < ROSTER_SIZE ==> #[trigger] p.pieces.contains(h),
{
    assert forall|h: usize| h < ROSTER_SIZE implies #[trigger] p.pieces.contains(h) by {
        assert(p.pieces[h as int] == h);
    }
}

/// The starting position of two players of different sides is a consistent game.
pub proof fn lemma_start_position_wf(g: GameView)
    requires
        g.is_start_position(),
        g.player1.color != g.player2.color,
    ensures
        g.wf(),
{
    lemma_start_player_wf(g.player1, true);
    lemma_start_player_wf(g.player2, false);
    assert forall|c: LocationCoords| c.in_bounds() implies #[trigger] g.cell_wf(c) by {
        assert(g.cell(c) == start_cell(g.player1.color, g.player2.color, c));
        lemma_home_pieces(c);
    }
    assert forall|color: Color, h: usize| h < ROSTER_SIZE implies #[trigger] g.piece_wf(color, h) by {
        let first = g.player1.color == color;
        lemma_home_squares(first, h as int);
        let c = home_square(first, h as int);
        assert(g.cell(c) == start_cell(g.player1.color, g.player2.color, c));
        assert(g.player(color).pieces.contains(h));
    }
}

} // verus!
