//! The game: the board, the two players, whose turn it is, and the move engine.

use std::rc::Rc;
use vstd::prelude::*;

use crate::layout::{
    home_of,
    home_square,
    lemma_start_position_wf,
    start_cell,
    start_player,
    starting_cell,
};
use crate::location::{BoardLocation, LocationCoords, LocationState, BOARD_SIZE};
use crate::path::{
    displacement,
    get_move_vector,
    lemma_path_in_bounds,
    path_points,
    points_along_vector,
    GatherPointsMode,
};
use crate::piece::{Piece, PieceRef, PieceType};
use crate::player::{
    lemma_capture_keeps_wf,
    lemma_relocation_keeps_wf,
    standard_piece_type,
    Color,
    Player,
    PlayerView,
    KING_INDEX,
    ROSTER_SIZE,
};

verus! {

/// Why a move was refused. A refused move changes nothing.
#[derive(Clone, Copy, Debug, PartialEq, Eq, Structural)]
pub enum MoveError {
    /// The source or the destination lies off the board.
    OutOfBounds,
    /// No piece stands on the source cell.
    EmptySource,
    /// The piece on the source cell belongs to the player who is not to move.
    NotOwner,
    /// A piece stands between source and destination, and the mover is no knight.
    PathBlocked,
    /// The destination holds a piece of the mover's own side.
    FriendlyFire,
    /// The destination holds an enemy piece that the mover cannot capture from where it is.
    IllegalAttack,
    /// The destination is empty and the mover cannot move there.
    IllegalMove,
}

/// A game in progress. `board[y][x]` is the cell on file `x` and rank `y`.
#[derive(Debug)]
pub struct Game {
    pub board: Vec<Vec<BoardLocation>>,
    pub player1: Player,
    pub player2: Player,
    pub current_player: Color,
}

/// The mathematical content of a [`Game`].
pub struct GameView {
    pub board: Seq<Seq<BoardLocation>>,
    pub player1: PlayerView,
    pub player2: PlayerView,
    pub current_player: Color,
}

/// The rows of a board, each as a sequence of cells.
pub open spec fn board_view(board: Seq<Vec<BoardLocation>>) -> Seq<Seq<BoardLocation>> {
    Seq::new(board.len(), |y: int| board[y]@)
}

impl View for Game {
    type V = GameView;

    open spec fn view(&self) -> GameView {
        GameView {
            board: board_view(self.board@),
            player1: self.player1@,
            player2: self.player2@,
            current_player: self.current_player,
        }
    }
}

impl GameView {
    /// The cell at `c`.
    pub open spec fn cell(self, c: LocationCoords) -> BoardLocation {
        self.board[c.y as int][c.x as int]
    }

    /// The player who plays `color`.
    pub open spec fn player(self, color: Color) -> PlayerView {
        if self.player1.color == color {
            self.player1
        } else {
            self.player2
        }
    }

    /// The piece that `r` names.
    pub open spec fn piece(self, r: PieceRef) -> Piece {
        self.player(r.owner).roster[r.index as int]
    }

    /// No piece stands on `c`.
    pub open spec fn is_empty(self, c: LocationCoords) -> bool {
        self.cell(c).state == LocationState::Empty
    }

    /// The side whose piece stands on `c`, if one does.
    pub open spec fn occupant_color(self, c: LocationCoords) -> Option<Color> {
        match self.cell(c).piece {
            Some(r) => Some(r.owner),
            None => None,
        }
    }

    /// The board has eight ranks of eight cells.
    pub open spec fn board_shaped(self) -> bool {
        &&& self.board.len() == BOARD_SIZE
        &&& forall|y: int| 0 <= y < BOARD_SIZE ==> (#[trigger] self.board[y]).len() == BOARD_SIZE
    }

    /// The player holds the sixteen pieces of a side, with the king named.
    pub open spec fn standard_roster(p: PlayerView) -> bool {
        &&& p.roster.len() == ROSTER_SIZE
        &&& p.king == Some(KING_INDEX)
        &&& forall|h: int|
            0 <= h < ROSTER_SIZE ==> (#[trigger] p.roster[h]).piece_type == standard_piece_type(h)
    }

    /// The cell at `c` knows where it is, is marked occupied exactly when it names a
    /// piece, and the piece it names stands on it.
    pub open spec fn cell_wf(self, c: LocationCoords) -> bool {
        let cell = self.cell(c);
        &&& cell.coords == c
        &&& cell.state == LocationState::Occupied <==> cell.piece is Some
        &&& cell.piece matches Some(r) ==> r.index < ROSTER_SIZE && self.piece(r).location == Some(c)
    }

    /// The piece at index `h` of the roster of the player of `color` either stands on a cell
    /// of the board that names it, and is listed as in play, or stands nowhere, and is listed
    /// as captured.
    pub open spec fn piece_wf(self, color: Color, h: usize) -> bool {
        let p = self.player(color);
        match p.roster[h as int].location {
            Some(c) => {
                &&& c.in_bounds()
                &&& self.cell(c).piece == Some(PieceRef { owner: color, index: h })
                &&& p.pieces.contains(h)
            },
            None => p.dead_pieces.contains(h),
        }
    }

    /// The invariant of a game: an 8×8 board, two players of different sides with the
    /// sixteen pieces each, and cells and pieces that refer to each other consistently.
    pub open spec fn wf(self) -> bool {
        &&& self.board_shaped()
        &&& self.player1.color != self.player2.color
        &&& self.player1.wf()
        &&& self.player2.wf()
        &&& Self::standard_roster(self.player1)
        &&& Self::standard_roster(self.player2)
        &&& forall|c: LocationCoords| c.in_bounds() ==> #[trigger] self.cell_wf(c)
        &&& forall|color: Color, h: usize| h < ROSTER_SIZE ==> #[trigger] self.piece_wf(color, h)
    }

    /// Every cell strictly between `source` and `source + v` is empty.
    pub open spec fn path_clear(self, source: LocationCoords, v: (int, int)) -> bool {
        let path = path_points(source, v, GatherPointsMode::Exclusive);
        forall|i: int| 0 <= i < path.len() ==> self.is_empty(#[trigger] path[i])
    }

    /// The reason for which the move from `source` to `dest` is refused, or `None` where it
    /// is carried out. The checks are made in this order, and the first that fails decides.
    pub open spec fn move_error(self, source: LocationCoords, dest: LocationCoords) -> Option<
        MoveError,
    > {
        if !dest.in_bounds() || !source.in_bounds() {
            Some(MoveError::OutOfBounds)
        } else if self.is_empty(source) {
            Some(MoveError::EmptySource)
        } else {
            let mover = self.piece(self.cell(source).piece.unwrap());
            let v = displacement(source, dest);
            if mover.owner != self.current_player {
                Some(MoveError::NotOwner)
            } else if mover.piece_type != PieceType::Knight && !self.path_clear(source, v) {
                Some(MoveError::PathBlocked)
            } else if !self.is_empty(dest) {
                if self.piece(self.cell(dest).piece.unwrap()).owner == mover.owner {
                    Some(MoveError::FriendlyFire)
                } else if !mover.can_attack(v) {
                    Some(MoveError::IllegalAttack)
                } else {
                    None
                }
            } else if !mover.can_move(v) {
                Some(MoveError::IllegalMove)
            } else {
                None
            }
        }
    }

    /// The board with the cell at `c` replaced.
    pub open spec fn board_with(
        board: Seq<Seq<BoardLocation>>,
        c: LocationCoords,
        cell: BoardLocation,
    ) -> Seq<Seq<BoardLocation>> {
        board.update(c.y as int, board[c.y as int].update(c.x as int, cell))
    }

    /// What a move does to one player: the captured piece, if it is theirs, leaves play,
    /// and the mover, if it is theirs, has moved to `dest`.
    pub open spec fn player_after_move(
        p: PlayerView,
        mover: PieceRef,
        target: Option<PieceRef>,
        dest: LocationCoords,
    ) -> PlayerView {
        let p = match target {
            Some(t) => if t.owner == p.color {
                p.with_capture(t.index)
            } else {
                p
            },
            None => p,
        };
        if mover.owner == p.color {
            p.with_move(mover.index, dest)
        } else {
            p
        }
    }

    /// The game after the move from `source` to `dest` has been carried out: a piece on
    /// `dest` is captured, the mover stands on `dest` and has moved, `source` is empty, and
    /// the turn passes to the other side. The threat flags stay as they are.
    pub open spec fn after_move(self, source: LocationCoords, dest: LocationCoords) -> GameView {
        let mover = self.cell(source).piece.unwrap();
        let target = self.cell(dest).piece;
        let entered = BoardLocation {
            state: LocationState::Occupied,
            piece: Some(mover),
            ..self.cell(dest)
        };
        let left = BoardLocation { state: LocationState::Empty, piece: None, ..self.cell(source) };
        GameView {
            board: Self::board_with(Self::board_with(self.board, dest, entered), source, left),
            player1: Self::player_after_move(self.player1, mover, target, dest),
            player2: Self::player_after_move(self.player2, mover, target, dest),
            current_player: self.current_player.opponent(),
        }
    }
}

/// A move that is carried out leaves the game consistent.
pub proof fn lemma_move_keeps_wf(g: GameView, source: LocationCoords, dest: LocationCoords)
    requires
        g.wf(),
        g.move_error(source, dest) is None,
    ensures
        g.after_move(source, dest).wf(),
{
    let after = g.after_move(source, dest);
    let mover = g.cell(source).piece.unwrap();
    let target = g.cell(dest).piece;
    assert(g.cell_wf(source));
    assert(g.cell_wf(dest));
    assert(g.piece_wf(mover.owner, mover.index));
    assert(source != dest);
    lemma_relocation_keeps_wf(g.player(mover.owner), mover.index, dest);
    if let Some(t) = target {
        assert(g.piece_wf(t.owner, t.index));
        assert(t.owner != mover.owner);
        lemma_capture_keeps_wf(g.player(t.owner), t.index);
    }
    assert(after.board_shaped());
    assert(after.player1.wf());
    assert(after.player2.wf());
    assert(GameView::standard_roster(after.player1));
    assert(GameView::standard_roster(after.player2));
    assert forall|c: LocationCoords| c.in_bounds() implies #[trigger] after.cell_wf(c) by {
        assert(g.cell_wf(c));
        if c != source && c != dest {
            assert(after.cell(c) == g.cell(c));
            if let Some(r) = g.cell(c).piece {
                assert(g.piece_wf(r.owner, r.index));
                assert(r != mover);
                assert(target != Some(r));
                assert(after.piece(r) == g.piece(r));
            }
        }
    }
    assert forall|color: Color, h: usize| h < ROSTER_SIZE implies #[trigger] after.piece_wf(
        color,
        h,
    ) by {
        assert(g.piece_wf(color, h));
        let r = PieceRef { owner: color, index: h };
        if r == mover {
        } else if target == Some(r) {
        } else {
            assert(after.piece(r) == g.piece(r));
            if let Some(c) = g.piece(r).location {
                assert(g.cell_wf(c));
                assert(c != source);
                assert(c != dest);
                assert(after.cell(c) == g.cell(c));
            }
        }
    }
}

impl Game {
    /// See [`GameView::wf`].
    pub open spec fn wf(&self) -> bool {
        self@.wf()
    }

    /// Sets up a game between two players of different sides, who are known by the names
    /// and identifiers of `player1` and `player2`. Each is given the sixteen pieces of a
    /// side, which stand on their home squares; the first player is to move.
    pub fn new(player1: Rc<Player>, player2: Rc<Player>) -> (game: Game)
        requires
            player1.color != player2.color,
        ensures
            game.wf(),
            game@.is_start_position(),
            game@.player1.name == player1@.name,
            game@.player1.id == player1@.id,
            game@.player1.color == player1@.color,
            game@.player2.name == player2@.name,
            game@.player2.id == player2@.id,
            game@.player2.color == player2@.color,
    {
        let mut first: Player = Player::with_id(player1.name.as_str(), player1.color, player1.id);
        let mut second: Player = Player::with_id(player2.name.as_str(), player2.color, player2.id);
        first.populate_pieces();
        second.populate_pieces();
        let ghost first_unplaced = first@;
        let ghost second_unplaced = second@;
        let mut h: usize = 0;
        while h < ROSTER_SIZE
            invariant
                h <= ROSTER_SIZE,
                first.wf(),
                second.wf(),
                first_unplaced.roster.len() == ROSTER_SIZE,
                second_unplaced.roster.len() == ROSTER_SIZE,
                first@ == (PlayerView { roster: first@.roster, ..first_unplaced }),
                second@ == (PlayerView { roster: second@.roster, ..second_unplaced }),
                first@.roster.len() == ROSTER_SIZE,
                second@.roster.len() == ROSTER_SIZE,
                forall|k: int|
                    0 <= k < ROSTER_SIZE ==> #[trigger] first@.roster[k] == (if k < h {
                        Piece { location: Some(home_square(true, k)), ..first_unplaced.roster[k] }
                    } else {
                        first_unplaced.roster[k]
                    }),
                forall|k: int|
                    0 <= k < ROSTER_SIZE ==> #[trigger] second@.roster[k] == (if k < h {
                        Piece { location: Some(home_square(false, k)), ..second_unplaced.roster[k] }
                    } else {
                        second_unplaced.roster[k]
                    }),
            decreases ROSTER_SIZE - h,
        {
            first.place(h, home_of(true, h));
            second.place(h, home_of(false, h));
            h = h + 1;
        }
        let first_color: Color = first.color;
        let second_color: Color = second.color;
        let mut board: Vec<Vec<BoardLocation>> = Vec::with_capacity(BOARD_SIZE);
        let mut y: usize = 0;
        while y < BOARD_SIZE
            invariant
                y <= BOARD_SIZE,
                board@.len() == y,
                forall|r: int| 0 <= r < y ==> (#[trigger] board@[r])@.len() == BOARD_SIZE,
                forall|r: int, k: int|
                    0 <= r < y && 0 <= k < BOARD_SIZE ==> #[trigger] board@[r]@[k] == start_cell(
                        first_color,
                        second_color,
                        LocationCoords { x: k as usize, y: r as usize },
                    ),
            decreases BOARD_SIZE - y,
        {
            let mut row: Vec<BoardLocation> = Vec::with_capacity(BOARD_SIZE);
            let mut x: usize = 0;
            while x < BOARD_SIZE
                invariant
                    x <= BOARD_SIZE,
                    y < BOARD_SIZE,
                    row@.len() == x,
                    forall|k: int|
                        0 <= k < x ==> #[trigger] row@[k] == start_cell(
                            first_color,
                            second_color,
                            LocationCoords { x: k as usize, y },
                        ),
                decreases BOARD_SIZE - x,
            {
                row.push(starting_cell(first_color, second_color, LocationCoords { x, y }));
                x = x + 1;
            }
            board.push(row);
            y = y + 1;
        }
        let game = Game { board, player1: first, player2: second, current_player: first_color };
        proof {
            let g = game@;
            assert(first_unplaced.pieces =~= Seq::new(ROSTER_SIZE as nat, |i: int| i as usize));
            assert(second_unplaced.pieces =~= Seq::new(ROSTER_SIZE as nat, |i: int| i as usize));
            assert(start_player(g.player1, true));
            assert(start_player(g.player2, false));
            assert(g.board_shaped());
            assert forall|c: LocationCoords| c.in_bounds() implies #[trigger] g.cell(c)
                == start_cell(g.player1.color, g.player2.color, c) by {
                assert(g.cell(c) == game.board@[c.y as int]@[c.x as int]);
            }
            lemma_start_position_wf(g);
        }
        game
    }

    /// The cell at `location`.
    pub fn get_loc_cartesian(&self, location: &LocationCoords) -> (cell: &BoardLocation)
        requires
            self@.board_shaped(),
            location.in_bounds(),
        ensures
            *cell == self@.cell(*location),
    {
        &self.board[location.y][location.x]
    }

    /// The piece that `r` names.
    pub fn piece(&self, r: PieceRef) -> (p: Piece)
        requires
            r.index < self@.player(r.owner).roster.len(),
        ensures
            p == self@.piece(r),
    {
        if self.player1.color == r.owner {
            self.player1.roster[r.index]
        } else {
            self.player2.roster[r.index]
        }
    }

    /// The piece that stands on `location`, if one does.
    pub fn piece_at(&self, location: &LocationCoords) -> (found: Option<Piece>)
        requires
            self.wf(),
            location.in_bounds(),
        ensures
            found == match self@.cell(*location).piece {
                Some(r) => Some(self@.piece(r)),
                None => None,
            },
    {
        assert(self@.cell_wf(*location));
        match self.board[location.y][location.x].piece {
            Some(r) => Some(self.piece(r)),
            None => None,
        }
    }

    /// Passes the turn to the other player.
    fn switch_turns(&mut self)
        requires
            old(self).player1.color != old(self).player2.color,
        ensures
            final(self)@ == (GameView {
                current_player: old(self)@.current_player.opponent(),
                ..old(self)@
            }),
    {
        if self.current_player == self.player1.color {
            self.current_player = self.player2.color;
        } else {
            self.current_player = self.player1.color;
        }
    }

    /// Attempts the move from `source` to `dest` for the player whose turn it is. The move
    /// is carried out in full or refused with the reason; a refused move changes nothing.
    #[verifier::loop_isolation(false)]
    pub fn move_piece(&mut self, source: LocationCoords, dest: LocationCoords) -> (outcome: Result<
        (),
        MoveError,
    >)
        requires
            old(self).wf(),
        ensures
            final(self).wf(),
            match old(self)@.move_error(source, dest) {
                Some(reason) => outcome == Err::<(), MoveError>(reason) && *final(self) == *old(
                    self,
                ),
                None => outcome is Ok && final(self)@ == old(self)@.after_move(source, dest),
            },
    {
        let ghost before = self@;
        if !dest.is_in_bounds() || !source.is_in_bounds() {
            return Err(MoveError::OutOfBounds);
        }
        assert(before.cell_wf(source));
        assert(before.cell_wf(dest));
        let source_cell: BoardLocation = self.board[source.y][source.x];
        let mover_ref: PieceRef = match source_cell.piece {
            Some(r) => r,
            None => {
                return Err(MoveError::EmptySource);
            },
        };
        let mover: Piece = self.piece(mover_ref);
        if mover.owner != self.current_player {
            return Err(MoveError::NotOwner);
        }
        let move_vec: (i32, i32) = get_move_vector(&source, &dest);
        let ghost v = displacement(source, dest);
        match mover.piece_type {
            PieceType::Knight => (),
            _ => {
                let intermediate_coords: Vec<LocationCoords> = points_along_vector(
                    &source,
                    &move_vec,
                    GatherPointsMode::Exclusive,
                );
                proof {
                    lemma_path_in_bounds(source, v, GatherPointsMode::Exclusive);
                }
                let mut i: usize = 0;
                while i < intermediate_coords.len()
                    invariant
                        i <= intermediate_coords.len(),
                        *self == *old(self),
                        intermediate_coords@ == path_points(
                            source,
                            v,
                            GatherPointsMode::Exclusive,
                        ),
                        forall|j: int|
                            0 <= j < intermediate_coords.len() ==> (
                            #[trigger] intermediate_coords@[j]).in_bounds(),
                        forall|j: int|
                            0 <= j < i ==> before.is_empty(#[trigger] intermediate_coords@[j]),
                    decreases intermediate_coords.len() - i,
                {
                    let coord: LocationCoords = intermediate_coords[i];
                    assert(coord.in_bounds());
                    assert(self@.cell(coord) == self.board@[coord.y as int]@[coord.x as int]);
                    match self.board[coord.y][coord.x].state {
                        LocationState::Occupied => {
                            assert(!before.is_empty(intermediate_coords@[i as int]));
                            return Err(MoveError::PathBlocked);
                        },
                        LocationState::Empty => (),
                    }
                    i = i + 1;
                }
            },
        }
        let dest_cell: BoardLocation = self.board[dest.y][dest.x];
        match dest_cell.piece {
            Some(target) => {
                assert(before.piece_wf(target.owner, target.index));
                if target.owner == mover.owner {
                    return Err(MoveError::FriendlyFire);
                }
                if !mover.validate_attack(&move_vec) {
                    return Err(MoveError::IllegalAttack);
                }
                if self.player1.color == target.owner {
                    self.player1.capture(target.index);
                } else {
                    self.player2.capture(target.index);
                }
            },
            None => {
                if !mover.validate_move(&move_vec) {
                    return Err(MoveError::IllegalMove);
                }
            },
        }
        assert(before.move_error(source, dest) is None);
        if self.player1.color == mover_ref.owner {
            self.player1.record_move(mover_ref.index, dest);
        } else {
            self.player2.record_move(mover_ref.index, dest);
        }
        self.board[dest.y][dest.x].piece = Some(mover_ref);
        self.board[dest.y][dest.x].state = LocationState::Occupied;
        self.board[source.y][source.x].piece = None;
        self.board[source.y][source.x].state = LocationState::Empty;
        proof {
            lemma_move_keeps_wf(before, source, dest);
            let expected = before.after_move(source, dest);
            assert(self@.player1 == expected.player1);
            assert(self@.player2 == expected.player2);
            assert(self@.board =~~= expected.board);
        }
        self.switch_turns();
        Ok(())
    }
}

} // verus!
