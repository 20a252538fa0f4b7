use chess_core::game::{Game, MoveError};
use chess_core::location::{BoardLocation, LocationCoords, LocationState};
use chess_core::piece::{Piece, PieceType};
use chess_core::player::{Color, Player};

fn at(x: usize, y: usize) -> LocationCoords {
    LocationCoords { x, y }
}

fn fresh_game() -> Game {
    let white = Player::with_rc("bob", Color::White);
    let black = Player::with_rc("alice", Color::Black);
    Game::new(white, black)
}

/// Everything that can be seen of a game.
#[derive(Debug, PartialEq)]
struct Snapshot {
    board: Vec<Vec<BoardLocation>>,
    rosters: (Vec<Piece>, Vec<Piece>),
    active: (Vec<usize>, Vec<usize>),
    captured: (Vec<usize>, Vec<usize>),
    kings: (Option<usize>, Option<usize>),
    current_player: Color,
}

fn snapshot(game: &Game) -> Snapshot {
    Snapshot {
        board: game.board.clone(),
        rosters: (game.player1.roster.clone(), game.player2.roster.clone()),
        active: (game.player1.pieces.clone(), game.player2.pieces.clone()),
        captured: (game.player1.dead_pieces.clone(), game.player2.dead_pieces.clone()),
        kings: (game.player1.king, game.player2.king),
        current_player: game.current_player,
    }
}

/// Checks that cells and pieces refer to each other as the rules of the game demand.
fn assert_consistent(game: &Game) {
    assert!(game.is_consistent());
    assert!(game.player1.is_consistent());
    assert!(game.player2.is_consistent());
    assert_eq!(game.board.len(), 8);
    for y in 0..8 {
        assert_eq!(game.board[y].len(), 8);
        for x in 0..8 {
            let cell = game.board[y][x];
            assert_eq!(cell.coords, at(x, y));
            assert_eq!(cell.state == LocationState::Occupied, cell.piece.is_some());
            if let Some(r) = cell.piece {
                let owner = if game.player1.color == r.owner { &game.player1 } else { &game.player2 };
                assert_eq!(owner.color, r.owner);
                assert_eq!(owner.roster[r.index].location, Some(at(x, y)));
                assert!(owner.pieces.contains(&r.index));
            }
        }
    }
    for player in [&game.player1, &game.player2] {
        assert_eq!(player.roster.len(), 16);
        assert_eq!(player.pieces.len() + player.dead_pieces.len(), 16);
        for h in 0..16usize {
            let active = player.pieces.iter().filter(|&&k| k == h).count();
            let captured = player.dead_pieces.iter().filter(|&&k| k == h).count();
            assert_eq!(active + captured, 1);
            let piece = player.roster[h];
            assert_eq!(piece.owner, player.color);
            match piece.location {
                Some(c) => {
                    assert_eq!(active, 1);
                    let r = game.board[c.y][c.x].piece.unwrap();
                    assert_eq!((r.owner, r.index), (player.color, h));
                },
                None => assert_eq!(captured, 1),
            }
        }
        assert_eq!(player.king, Some(12));
        assert_eq!(player.roster[12].piece_type, PieceType::King);
    }
}

fn play(game: &mut Game, moves: &[((usize, usize), (usize, usize))]) {
    for &((sx, sy), (dx, dy)) in moves {
        assert_eq!(game.move_piece(at(sx, sy), at(dx, dy)), Ok(()), "{:?}", ((sx, sy), (dx, dy)));
        assert_consistent(game);
    }
}

#[test]
fn starting_position_has_the_standard_layout() {
    let game = fresh_game();
    let back_rank = [
        PieceType::Rook,
        PieceType::Knight,
        PieceType::Bishop,
        PieceType::Queen,
        PieceType::King,
        PieceType::Bishop,
        PieceType::Knight,
        PieceType::Rook,
    ];
    for x in 0..8 {
        let white_piece = game.piece_at(&at(x, 7)).unwrap();
        assert_eq!(white_piece.piece_type, back_rank[x]);
        assert_eq!(white_piece.owner, Color::White);
        let black_piece = game.piece_at(&at(x, 0)).unwrap();
        assert_eq!(black_piece.piece_type, back_rank[x]);
        assert_eq!(black_piece.owner, Color::Black);
        assert_eq!(game.piece_at(&at(x, 6)).unwrap().piece_type, PieceType::Pawn);
        assert_eq!(game.piece_at(&at(x, 6)).unwrap().owner, Color::White);
        assert_eq!(game.piece_at(&at(x, 1)).unwrap().piece_type, PieceType::Pawn);
        assert_eq!(game.piece_at(&at(x, 1)).unwrap().owner, Color::Black);
        for y in 2..6 {
            assert_eq!(game.board[y][x].state, LocationState::Empty);
            assert!(game.piece_at(&at(x, y)).is_none());
        }
        for y in 0..8 {
            assert!(!game.board[y][x].white_attackable);
            assert!(!game.board[y][x].black_attackable);
        }
    }
    assert_eq!(game.current_player, Color::White);
    assert_eq!(game.player1.pieces.len(), 16);
    assert_eq!(game.player2.pieces.len(), 16);
    assert_eq!(game.player1.dead_pieces.len(), 0);
    assert_eq!(game.player2.dead_pieces.len(), 0);
    assert_consistent(&game);
}

#[test]
fn out_of_bounds_destination_is_refused() {
    let mut game = fresh_game();
    let before = snapshot(&game);
    for i in 0..8 {
        for sx in 0..8 {
            for sy in 0..8 {
                assert_eq!(game.move_piece(at(sx, sy), at(8, i)), Err(MoveError::OutOfBounds));
                assert_eq!(game.move_piece(at(sx, sy), at(i, 8)), Err(MoveError::OutOfBounds));
            }
        }
    }
    assert_eq!(game.move_piece(at(6, 6), at(usize::MAX, 0)), Err(MoveError::OutOfBounds));
    assert_eq!(snapshot(&game), before);
    assert_eq!(game.current_player, Color::White);
}

#[test]
fn out_of_bounds_source_is_refused() {
    let mut game = fresh_game();
    let before = snapshot(&game);
    assert_eq!(game.move_piece(at(8, 0), at(0, 0)), Err(MoveError::OutOfBounds));
    assert_eq!(game.move_piece(at(0, 8), at(0, 4)), Err(MoveError::OutOfBounds));
    assert_eq!(game.move_piece(at(usize::MAX, usize::MAX), at(3, 3)), Err(MoveError::OutOfBounds));
    assert_eq!(snapshot(&game), before);
}

#[test]
fn empty_source_is_refused() {
    let mut game = fresh_game();
    let before = snapshot(&game);
    assert_eq!(game.move_piece(at(3, 3), at(3, 4)), Err(MoveError::EmptySource));
    assert_eq!(game.move_piece(at(0, 2), at(0, 2)), Err(MoveError::EmptySource));
    assert_eq!(snapshot(&game), before);
}

#[test]
fn moving_a_piece_of_the_other_player_is_refused() {
    let mut game = fresh_game();
    let before = snapshot(&game);
    for x in 0..8 {
        for y in 0..2 {
            for dx in 0..8 {
                for dy in 0..8 {
                    assert_eq!(game.move_piece(at(x, y), at(dx, dy)), Err(MoveError::NotOwner));
                }
            }
        }
    }
    assert_eq!(snapshot(&game), before);
    assert_eq!(game.current_player, Color::White);
}

#[test]
fn white_cannot_move_twice_in_a_row() {
    let mut game = fresh_game();
    play(&mut game, &[((0, 6), (0, 5))]);
    assert_eq!(game.current_player, Color::Black);
    let before = snapshot(&game);
    for x in 0..8 {
        for y in 6..8 {
            if (x, y) != (0, 6) {
                assert_eq!(game.move_piece(at(x, y), at(x, 4)), Err(MoveError::NotOwner));
            }
        }
    }
    assert_eq!(game.move_piece(at(0, 5), at(0, 4)), Err(MoveError::NotOwner));
    assert_eq!(snapshot(&game), before);
}

#[test]
fn blocked_path_is_refused() {
    let mut game = fresh_game();
    let before = snapshot(&game);
    assert_eq!(game.move_piece(at(0, 7), at(0, 5)), Err(MoveError::PathBlocked));
    assert_eq!(game.move_piece(at(2, 7), at(4, 5)), Err(MoveError::PathBlocked));
    assert_eq!(game.move_piece(at(3, 7), at(3, 3)), Err(MoveError::PathBlocked));
    assert_eq!(game.move_piece(at(0, 7), at(0, 0)), Err(MoveError::PathBlocked));
    assert_eq!(snapshot(&game), before);
}

#[test]
fn blocked_path_is_found_before_the_move_is_judged() {
    let mut game = fresh_game();
    let before = snapshot(&game);
    // A rook cannot go from (0, 7) to (2, 3) at all, yet (1, 5) is the only cell between, and it
    // is empty: the move is judged and found illegal.
    assert_eq!(game.move_piece(at(0, 7), at(2, 3)), Err(MoveError::IllegalMove));
    // From (3, 7) to (1, 3) the cell between is (2, 5), empty as well.
    assert_eq!(game.move_piece(at(3, 7), at(1, 3)), Err(MoveError::IllegalMove));
    // From (0, 7) to (4, 5) the cell between is (2, 6), which holds a pawn.
    assert_eq!(game.move_piece(at(0, 7), at(4, 5)), Err(MoveError::PathBlocked));
    assert_eq!(snapshot(&game), before);
}

#[test]
fn friendly_fire_is_refused() {
    let mut game = fresh_game();
    let before = snapshot(&game);
    assert_eq!(game.move_piece(at(0, 7), at(0, 6)), Err(MoveError::FriendlyFire));
    assert_eq!(game.move_piece(at(1, 7), at(3, 6)), Err(MoveError::FriendlyFire));
    assert_eq!(game.move_piece(at(4, 7), at(3, 7)), Err(MoveError::FriendlyFire));
    assert_eq!(game.move_piece(at(2, 7), at(1, 6)), Err(MoveError::FriendlyFire));
    assert_eq!(snapshot(&game), before);
}

#[test]
fn moving_onto_the_own_cell_is_friendly_fire() {
    let mut game = fresh_game();
    let before = snapshot(&game);
    assert_eq!(game.move_piece(at(0, 6), at(0, 6)), Err(MoveError::FriendlyFire));
    assert_eq!(game.move_piece(at(1, 7), at(1, 7)), Err(MoveError::FriendlyFire));
    assert_eq!(snapshot(&game), before);
}

#[test]
fn illegal_move_is_refused() {
    let mut game = fresh_game();
    let before = snapshot(&game);
    assert_eq!(game.move_piece(at(0, 6), at(0, 3)), Err(MoveError::IllegalMove));
    assert_eq!(game.move_piece(at(0, 6), at(1, 5)), Err(MoveError::IllegalMove));
    assert_eq!(game.move_piece(at(1, 7), at(1, 5)), Err(MoveError::IllegalMove));
    assert_eq!(game.move_piece(at(1, 7), at(3, 5)), Err(MoveError::IllegalMove));
    assert_eq!(snapshot(&game), before);
}

#[test]
fn illegal_attack_is_refused_and_captures_nothing() {
    let mut game = fresh_game();
    play(&mut game, &[((0, 6), (0, 4)), ((0, 1), (0, 3))]);
    let before = snapshot(&game);
    // The white pawn on (0, 4) faces the black pawn on (0, 3): a pawn does not capture
    // straight ahead.
    assert_eq!(game.move_piece(at(0, 4), at(0, 3)), Err(MoveError::IllegalAttack));
    assert_eq!(snapshot(&game), before);
    assert_eq!(game.current_player, Color::White);
    assert_eq!(game.player2.pieces.len(), 16);
    assert!(game.player2.dead_pieces.is_empty());
    assert_eq!(game.piece_at(&at(0, 3)).unwrap().owner, Color::Black);
    assert_eq!(game.piece_at(&at(0, 4)).unwrap().owner, Color::White);
}

#[test]
fn illegal_attack_by_a_knight_and_by_a_bishop() {
    let mut game = fresh_game();
    play(
        &mut game,
        &[
            ((1, 7), (2, 5)),
            ((3, 1), (3, 3)),
            ((2, 5), (3, 3)),
            ((3, 0), (3, 3)),
            ((6, 6), (6, 5)),
            ((3, 3), (3, 4)),
            ((5, 7), (6, 6)),
            ((0, 1), (0, 2)),
        ],
    );
    let before = snapshot(&game);
    // The bishop on (6, 6) and the black queen on (3, 4) are not on one diagonal; the cell
    // between them on the lattice line does not exist, so the path is clear.
    assert_eq!(game.move_piece(at(6, 6), at(3, 4)), Err(MoveError::IllegalAttack));
    // The knight on (6, 7) cannot reach the queen either.
    assert_eq!(game.move_piece(at(6, 7), at(3, 4)), Err(MoveError::IllegalAttack));
    assert_eq!(snapshot(&game), before);
}

#[test]
fn pawn_may_advance_two_cells_only_at_first() {
    let mut game = fresh_game();
    play(&mut game, &[((4, 6), (4, 4))]);
    assert!(game.piece_at(&at(4, 4)).unwrap().has_moved);
    play(&mut game, &[((0, 1), (0, 2))]);
    let before = snapshot(&game);
    assert_eq!(game.move_piece(at(4, 4), at(4, 2)), Err(MoveError::IllegalMove));
    assert_eq!(snapshot(&game), before);
    play(&mut game, &[((4, 4), (4, 3))]);
    assert_eq!(game.piece_at(&at(4, 3)).unwrap().piece_type, PieceType::Pawn);
}

#[test]
fn pawn_that_stepped_once_may_not_step_twice() {
    let mut game = fresh_game();
    assert!(!game.piece_at(&at(4, 6)).unwrap().has_moved);
    play(&mut game, &[((4, 6), (4, 5)), ((4, 1), (4, 2))]);
    assert_eq!(game.move_piece(at(4, 5), at(4, 3)), Err(MoveError::IllegalMove));
    assert_eq!(game.current_player, Color::White);
    play(&mut game, &[((4, 5), (4, 4))]);
    assert_eq!(game.move_piece(at(4, 2), at(4, 4)), Err(MoveError::IllegalAttack));
    play(&mut game, &[((4, 2), (4, 3))]);
}

#[test]
fn pawn_double_step_needs_a_clear_path() {
    let mut game = fresh_game();
    play(&mut game, &[((1, 7), (2, 5)), ((0, 1), (0, 2))]);
    // The knight on (2, 5) stands right before the pawn on (2, 6).
    assert_eq!(game.move_piece(at(2, 6), at(2, 4)), Err(MoveError::PathBlocked));
    assert_eq!(game.move_piece(at(2, 6), at(2, 5)), Err(MoveError::FriendlyFire));
}

#[test]
fn pawn_may_not_move_backwards() {
    let mut game = fresh_game();
    play(&mut game, &[((6, 6), (6, 5)), ((1, 1), (1, 2))]);
    let before = snapshot(&game);
    assert_eq!(game.move_piece(at(6, 5), at(6, 6)), Err(MoveError::IllegalMove));
    assert_eq!(snapshot(&game), before);
    assert_eq!(game.current_player, Color::White);
}

#[test]
fn knight_jumps_although_hemmed_in() {
    let mut game = fresh_game();
    play(
        &mut game,
        &[
            ((2, 6), (2, 4)),
            ((7, 1), (7, 2)),
            ((1, 6), (1, 5)),
            ((7, 2), (7, 3)),
            ((3, 6), (3, 5)),
            ((7, 3), (7, 4)),
            ((1, 7), (2, 5)),
            ((0, 1), (0, 2)),
            ((3, 7), (2, 6)),
            ((0, 2), (0, 3)),
        ],
    );
    for (x, y) in [(2, 4), (2, 6), (1, 5), (3, 5)] {
        assert_eq!(game.board[y][x].state, LocationState::Occupied);
    }
    assert_eq!(game.piece_at(&at(2, 5)).unwrap().piece_type, PieceType::Knight);
    play(&mut game, &[((2, 5), (4, 4))]);
    assert_eq!(game.piece_at(&at(4, 4)).unwrap().piece_type, PieceType::Knight);
    assert_eq!(game.board[5][2].state, LocationState::Empty);
    assert_eq!(game.current_player, Color::Black);
}

#[test]
fn knight_jumps_from_the_starting_position() {
    let mut game = fresh_game();
    play(&mut game, &[((1, 7), (0, 5)), ((6, 0), (5, 2)), ((6, 7), (5, 5)), ((1, 0), (2, 2))]);
}

#[test]
fn successful_move_updates_cells_piece_and_turn() {
    let mut game = fresh_game();
    let before = snapshot(&game);
    assert_eq!(game.move_piece(at(3, 6), at(3, 4)), Ok(()));
    assert_eq!(game.current_player, Color::Black);
    let source = game.board[6][3];
    assert_eq!(source.state, LocationState::Empty);
    assert_eq!(source.piece, None);
    assert_eq!(source.coords, at(3, 6));
    let dest = game.board[4][3];
    assert_eq!(dest.state, LocationState::Occupied);
    assert_eq!(dest.piece, before.board[6][3].piece);
    assert_eq!(dest.coords, at(3, 4));
    let pawn = game.player1.roster[3];
    assert_eq!(pawn.location, Some(at(3, 4)));
    assert!(pawn.has_moved);
    assert_eq!(pawn.id, before.rosters.0[3].id);
    for h in 0..16 {
        if h != 3 {
            assert_eq!(game.player1.roster[h], before.rosters.0[h]);
        }
    }
    assert_eq!(game.player2.roster, before.rosters.1);
    assert_eq!(game.player1.pieces, before.active.0);
    assert_eq!(game.player2.pieces, before.active.1);
    for y in 0..8 {
        for x in 0..8 {
            if (x, y) != (3, 6) && (x, y) != (3, 4) {
                assert_eq!(game.board[y][x], before.board[y][x]);
            }
        }
    }
}

#[test]
fn capture_moves_the_piece_to_the_captured_ones() {
    let mut game = fresh_game();
    play(&mut game, &[((7, 6), (7, 5)), ((6, 1), (6, 2)), ((7, 5), (7, 4)), ((6, 2), (6, 3))]);
    let before = snapshot(&game);
    let taken = game.board[3][6].piece.unwrap();
    assert_eq!(taken.owner, Color::Black);
    assert_eq!(taken.index, 1);
    assert_eq!(game.move_piece(at(7, 4), at(6, 3)), Ok(()));
    assert_consistent(&game);
    assert_eq!(game.player2.dead_pieces, vec![1]);
    assert_eq!(game.player2.pieces, vec![0, 15, 2, 3, 4, 5, 6, 7, 8, 9, 10, 11, 12, 13, 14]);
    assert_eq!(
        game.player2.pieces.len() + game.player2.dead_pieces.len(),
        before.active.1.len() + before.captured.1.len()
    );
    assert_eq!(game.player2.roster[1].location, None);
    assert_eq!(game.player2.roster[1].id, before.rosters.1[1].id);
    assert_eq!(game.player2.roster[1].piece_type, PieceType::Pawn);
    assert_eq!(game.player1.pieces, before.active.0);
    assert!(game.player1.dead_pieces.is_empty());
    let mover = game.piece_at(&at(6, 3)).unwrap();
    assert_eq!(mover.owner, Color::White);
    assert_eq!(mover.piece_type, PieceType::Pawn);
    assert_eq!(game.board[4][7].state, LocationState::Empty);
    assert_eq!(game.current_player, Color::Black);
}

#[test]
fn two_captures_keep_the_order_of_capture() {
    let mut game = fresh_game();
    play(
        &mut game,
        &[
            ((7, 6), (7, 5)),
            ((6, 1), (6, 2)),
            ((7, 5), (7, 4)),
            ((6, 2), (6, 3)),
            ((7, 4), (6, 3)),
            ((6, 0), (5, 2)),
            ((4, 6), (4, 5)),
            ((5, 2), (3, 3)),
            ((4, 7), (4, 6)),
            ((1, 1), (1, 2)),
            ((7, 7), (7, 1)),
        ],
    );
    assert_eq!(game.player2.dead_pieces, vec![1, 0]);
    assert_eq!(game.player2.pieces, vec![14, 15, 2, 3, 4, 5, 6, 7, 8, 9, 10, 11, 12, 13]);
    play(&mut game, &[((7, 0), (7, 1))]);
    assert_eq!(game.player1.dead_pieces, vec![15]);
    assert_eq!(game.player1.pieces.len(), 15);
    assert!(!game.player1.pieces.contains(&15));
}

#[test]
fn a_game_plays_out_move_by_move() {
    let mut game = fresh_game();
    play(
        &mut game,
        &[
            ((7, 6), (7, 5)),
            ((6, 1), (6, 2)),
            ((7, 5), (7, 4)),
            ((6, 2), (6, 3)),
            ((7, 4), (6, 3)),
        ],
    );
    assert_eq!(game.player2.pieces.len(), 15);
    assert_eq!(game.player2.dead_pieces.len(), 1);
    play(
        &mut game,
        &[
            ((6, 0), (5, 2)),
            ((4, 6), (4, 5)),
            ((5, 2), (3, 3)),
            ((4, 7), (4, 6)),
            ((1, 1), (1, 2)),
            ((7, 7), (7, 1)),
            ((7, 0), (7, 1)),
            ((6, 6), (6, 5)),
            ((7, 1), (7, 2)),
            ((5, 7), (7, 5)),
            ((7, 2), (5, 2)),
            ((7, 5), (5, 7)),
            ((0, 1), (0, 3)),
        ],
    );
    let before = snapshot(&game);
    assert_eq!(game.move_piece(at(4, 5), at(4, 3)), Err(MoveError::IllegalMove));
    assert_eq!(snapshot(&game), before);
    play(&mut game, &[((4, 5), (4, 4))]);
    let before = snapshot(&game);
    assert_eq!(game.move_piece(at(0, 0), at(0, 6)), Err(MoveError::PathBlocked));
    assert_eq!(snapshot(&game), before);
    assert_eq!(game.player1.pieces.len(), 15);
    assert_eq!(game.player1.dead_pieces.len(), 1);
    assert_eq!(game.player2.pieces.len(), 14);
    assert_eq!(game.player2.dead_pieces.len(), 2);
    assert_eq!(game.current_player, Color::Black);
}

#[test]
fn a_king_may_be_captured() {
    let mut game = fresh_game();
    play(
        &mut game,
        &[
            ((4, 6), (4, 4)),
            ((5, 1), (5, 2)),
            ((3, 7), (7, 3)),
            ((0, 1), (0, 2)),
            ((7, 3), (4, 0)),
        ],
    );
    assert_eq!(game.player2.dead_pieces, vec![12]);
    assert_eq!(game.player2.roster[12].piece_type, PieceType::King);
    assert_eq!(game.player2.king, Some(12));
    assert_eq!(game.piece_at(&at(4, 0)).unwrap().piece_type, PieceType::Queen);
}

#[test]
fn board_cells_can_be_read() {
    let game = fresh_game();
    let cell = game.get_loc_cartesian(&at(4, 7));
    assert_eq!(cell.coords, at(4, 7));
    assert_eq!(cell.state, LocationState::Occupied);
    let king = game.piece(cell.piece.unwrap());
    assert_eq!(king.piece_type, PieceType::King);
    assert_eq!(king.owner, Color::White);
    assert_eq!(game.piece_at(&at(4, 7)), Some(king));
    assert_eq!(game.piece_at(&at(4, 4)), None);
}
