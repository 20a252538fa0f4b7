use chess_core::game::Game;
use chess_core::layout::{home_of, starting_cell};
use chess_core::location::{BoardLocation, LocationCoords, LocationState};
use chess_core::piece::{Piece, PieceRef, PieceType};
use chess_core::player::{Color, Player};

fn at(x: usize, y: usize) -> LocationCoords {
    LocationCoords { x, y }
}

fn new_game() -> Game {
    Game::new(Player::with_rc("bob", Color::White), Player::with_rc("alice", Color::Black))
}

fn piece_on(piece_type: PieceType, owner: Color, location: Option<LocationCoords>) -> Piece {
    Piece { piece_type, owner, id: 1, has_moved: true, location }
}

#[test]
fn colors_know_their_direction_mark_and_opponent() {
    assert_eq!(Color::White.pawn_direction(), -1);
    assert_eq!(Color::Black.pawn_direction(), 1);
    assert_eq!(Color::White.other(), Color::Black);
    assert_eq!(Color::Black.other(), Color::White);
    assert_eq!(Color::White.piece_char(), 'O');
    assert_eq!(Color::Black.piece_char(), 'X');
}

#[test]
fn coordinates_know_the_board() {
    assert!(at(0, 0).is_in_bounds());
    assert!(at(7, 7).is_in_bounds());
    assert!(!at(8, 0).is_in_bounds());
    assert!(!at(0, 8).is_in_bounds());
    assert!(!at(usize::MAX, 3).is_in_bounds());
}

#[test]
fn home_squares_of_both_players() {
    assert_eq!(home_of(true, 0), at(0, 6));
    assert_eq!(home_of(true, 7), at(7, 6));
    assert_eq!(home_of(true, 8), at(0, 7));
    assert_eq!(home_of(true, 12), at(4, 7));
    assert_eq!(home_of(true, 15), at(7, 7));
    assert_eq!(home_of(false, 0), at(7, 1));
    assert_eq!(home_of(false, 7), at(0, 1));
    assert_eq!(home_of(false, 8), at(7, 0));
    assert_eq!(home_of(false, 11), at(3, 0));
    assert_eq!(home_of(false, 12), at(4, 0));
    assert_eq!(home_of(false, 15), at(0, 0));
}

#[test]
fn starting_cells_name_the_pieces_at_home() {
    for first in [true, false] {
        for h in 0..16 {
            let cell = starting_cell(Color::White, Color::Black, home_of(first, h));
            let owner = if first { Color::White } else { Color::Black };
            assert_eq!(
                cell,
                BoardLocation {
                    coords: home_of(first, h),
                    state: LocationState::Occupied,
                    piece: Some(PieceRef { owner, index: h }),
                    white_attackable: false,
                    black_attackable: false,
                }
            );
        }
    }
    for y in 2..6 {
        for x in 0..8 {
            assert_eq!(
                starting_cell(Color::White, Color::Black, at(x, y)),
                BoardLocation {
                    coords: at(x, y),
                    state: LocationState::Empty,
                    piece: None,
                    white_attackable: false,
                    black_attackable: false,
                }
            );
        }
    }
}

#[test]
fn player_records_a_new_piece() {
    let mut player = Player::with_id("bob", Color::Black, 5);
    assert_eq!(player.add_piece(PieceType::Queen, 77), 0);
    assert_eq!(player.add_piece(PieceType::King, 78), 1);
    assert_eq!(
        player.roster,
        vec![
            Piece {
                piece_type: PieceType::Queen,
                owner: Color::Black,
                id: 77,
                has_moved: false,
                location: None
            },
            Piece {
                piece_type: PieceType::King,
                owner: Color::Black,
                id: 78,
                has_moved: false,
                location: None
            },
        ]
    );
    assert_eq!(player.pieces, vec![0, 1]);
    assert!(player.dead_pieces.is_empty());
    assert_eq!(player.king, None);
}

#[test]
fn player_records_placement_move_and_capture() {
    let mut player = Player::with_id("bob", Color::White, 5);
    for id in 0..5 {
        player.add_piece(PieceType::Pawn, id);
    }
    player.place(2, at(2, 6));
    assert_eq!(player.roster[2].location, Some(at(2, 6)));
    assert!(!player.roster[2].has_moved);
    player.record_move(2, at(2, 4));
    assert_eq!(player.roster[2].location, Some(at(2, 4)));
    assert!(player.roster[2].has_moved);
    assert_eq!(player.pieces, vec![0, 1, 2, 3, 4]);

    player.capture(1);
    assert_eq!(player.pieces, vec![0, 4, 2, 3]);
    assert_eq!(player.dead_pieces, vec![1]);
    assert_eq!(player.roster[1].location, None);
    player.capture(3);
    assert_eq!(player.pieces, vec![0, 4, 2]);
    assert_eq!(player.dead_pieces, vec![1, 3]);
    player.capture(2);
    assert_eq!(player.pieces, vec![0, 4]);
    assert_eq!(player.dead_pieces, vec![1, 3, 2]);
    assert_eq!(player.roster[2].location, None);
    assert!(player.roster[2].has_moved);
    assert_eq!(player.roster.len(), 5);
}

#[test]
fn short_displacements_are_kept_while_on_the_board() {
    let game = new_game();
    let jumps = vec![(2, 1), (2, -1), (-2, 1), (-2, -1), (1, 2), (1, -2), (-1, 2), (-1, -2)];
    let corner = piece_on(PieceType::Knight, Color::White, Some(at(0, 0)));
    assert_eq!(game.get_attack_vecs_in_bounds(&corner, jumps.clone()), vec![(2, 1), (1, 2)]);
    let middle = piece_on(PieceType::Knight, Color::White, Some(at(4, 4)));
    assert_eq!(game.get_attack_vecs_in_bounds(&middle, jumps.clone()), jumps);
    let edge = piece_on(PieceType::Knight, Color::White, Some(at(7, 6)));
    assert_eq!(game.get_attack_vecs_in_bounds(&edge, jumps.clone()), vec![(-2, 1), (-2, -1), (-1, -2)]);
    let nowhere = piece_on(PieceType::Knight, Color::White, None);
    assert!(game.get_attack_vecs_in_bounds(&nowhere, jumps).is_empty());
    let king = piece_on(PieceType::King, Color::Black, Some(at(0, 7)));
    assert_eq!(
        game.get_attack_vecs_in_bounds(&king, vec![(0, 0), (1, 0), (0, 1), (0, -1), (0, 0), (-1, -1)]),
        vec![(1, 0), (0, -1)]
    );
}

#[test]
fn long_displacements_reach_the_edge() {
    let game = new_game();
    let straight = vec![(1, 0), (-1, 0), (0, 1), (0, -1)];
    let rook = piece_on(PieceType::Rook, Color::White, Some(at(1, 3)));
    assert_eq!(
        game.get_attack_vecs_to_edge(&rook, straight.clone()),
        vec![(6, 0), (-1, 0), (0, 4), (0, -3)]
    );
    let corner = piece_on(PieceType::Rook, Color::White, Some(at(0, 0)));
    assert_eq!(game.get_attack_vecs_to_edge(&corner, straight.clone()), vec![(7, 0), (0, 7)]);
    let diagonal = vec![(1, 1), (1, -1), (-1, 1), (-1, -1)];
    let bishop = piece_on(PieceType::Bishop, Color::Black, Some(at(2, 5)));
    assert_eq!(
        game.get_attack_vecs_to_edge(&bishop, diagonal),
        vec![(2, 2), (5, -5), (-2, 2), (-2, -2)]
    );
    let nowhere = piece_on(PieceType::Rook, Color::White, None);
    assert!(game.get_attack_vecs_to_edge(&nowhere, straight).is_empty());
    assert_eq!(
        game.get_attack_vecs_to_edge(&corner, vec![(0, 0), (2, 1), (3, 0), (8, 0), (i32::MAX, 1)]),
        vec![(6, 3), (6, 0)]
    );
}

#[test]
fn flags_are_set_cell_by_cell() {
    let mut game = new_game();
    game.put_threat_flag(at(3, 4), Color::White, true);
    game.put_threat_flag(at(0, 0), Color::Black, true);
    for y in 0..8 {
        for x in 0..8 {
            assert_eq!(game.board[y][x].white_attackable, (x, y) == (3, 4));
            assert_eq!(game.board[y][x].black_attackable, (x, y) == (0, 0));
        }
    }
    game.put_threat_flag(at(3, 4), Color::White, false);
    assert!(!game.board[4][3].white_attackable);
    assert!(game.board[0][0].black_attackable);
    assert!(game.is_consistent());
}

#[test]
fn clearing_lowers_one_side_only() {
    let mut game = new_game();
    game.generate_attack_map(Color::White);
    game.generate_attack_map(Color::Black);
    game.clear_attack_map(Color::White);
    for y in 0..8 {
        for x in 0..8 {
            assert!(!game.board[y][x].white_attackable);
            assert_eq!(game.board[y][x].black_attackable, y == 2);
        }
    }
    game.clear_attack_map(Color::Black);
    for y in 0..8 {
        for x in 0..8 {
            assert!(!game.board[y][x].black_attackable);
        }
    }
    assert!(game.is_consistent());
}

#[test]
fn walks_mark_up_to_the_first_piece() {
    let mut game = new_game();
    // A white rook imagined on (3, 4) looks along the rank and up and down the file.
    let rook = piece_on(PieceType::Rook, Color::White, Some(at(3, 4)));
    game.set_attack_flags(&rook, &vec![(4, 0), (-3, 0), (0, 3), (0, -4)]);
    for y in 0..8 {
        for x in 0..8 {
            let on_rank = y == 4 && x != 3;
            let on_file = x == 3 && (y == 5 || (1..4).contains(&y));
            assert_eq!(game.board[y][x].white_attackable, on_rank || on_file, "{:?}", (x, y));
            assert!(!game.board[y][x].black_attackable);
        }
    }
    // Flags that are up stay up.
    let knight = piece_on(PieceType::Knight, Color::White, Some(at(3, 4)));
    game.set_attack_flags(&knight, &vec![(1, -2), (2, 2), (2, 1), (5, 0)]);
    assert!(game.board[2][4].white_attackable);
    assert!(game.board[5][5].white_attackable);
    assert!(!game.board[6][5].white_attackable);
    assert!(game.board[4][7].white_attackable);
    // A knight looks at the landing cell only: the cells between stay as they were.
    let black_knight = piece_on(PieceType::Knight, Color::Black, Some(at(0, 3)));
    game.set_attack_flags(&black_knight, &vec![(3, 0), (1, -2), (0, 4), (-1, 0)]);
    for y in 0..8 {
        for x in 0..8 {
            assert_eq!(game.board[y][x].black_attackable, (x, y) == (3, 3) || (x, y) == (0, 7));
        }
    }
    let nowhere = piece_on(PieceType::Queen, Color::Black, None);
    game.set_attack_flags(&nowhere, &vec![(1, 0), (0, 1)]);
    assert!(!game.board[3][1].black_attackable);
    assert!(game.is_consistent());
}
