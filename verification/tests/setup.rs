use chess_core::game::Game;
use chess_core::location::LocationCoords;
use chess_core::piece::PieceType;
use chess_core::player::{piece_type_at, Color, Player};

#[test]
fn new_player_has_no_pieces() {
    let player = Player::new("bob", Color::White);
    assert_eq!(player.name, "bob");
    assert_eq!(player.color, Color::White);
    assert_eq!(player.pawn_direction, -1);
    assert_eq!(player.piece_char, 'O');
    assert!(player.roster.is_empty());
    assert!(player.pieces.is_empty());
    assert!(player.dead_pieces.is_empty());
    assert_eq!(player.king, None);
    let other = Player::new("alice", Color::Black);
    assert_eq!(other.pawn_direction, 1);
    assert_eq!(other.piece_char, 'X');
}

#[test]
fn player_with_given_identifier_keeps_it() {
    let player = Player::with_id("carol", Color::Black, 42);
    assert_eq!(player.id, 42);
    assert_eq!(player.name, "carol");
    assert_eq!(player.color, Color::Black);
}

#[test]
fn shared_player_is_a_new_player() {
    let player = Player::with_rc("bob", Color::White);
    assert_eq!(player.name, "bob");
    assert_eq!(player.color, Color::White);
    assert!(player.pieces.is_empty());
}

#[test]
fn identifiers_are_random_uuids() {
    let first = Player::new("bob", Color::White);
    let second = Player::new("bob", Color::White);
    for id in [first.id, second.id] {
        let uuid = uuid::Uuid::from_u128(id);
        assert_eq!(uuid.get_version_num(), 4);
        assert_eq!(uuid.get_variant(), uuid::Variant::RFC4122);
        assert_eq!((id >> 76) & 0xf, 4);
        assert_eq!((id >> 62) & 0x3, 2);
    }
    assert_ne!(first.id, second.id);
}

#[test]
fn populated_player_holds_the_sixteen_pieces() {
    let mut player = Player::new("bob", Color::Black);
    player.populate_pieces();
    assert_eq!(player.roster.len(), 16);
    assert_eq!(player.pieces, (0..16).collect::<Vec<usize>>());
    assert!(player.dead_pieces.is_empty());
    assert_eq!(player.king, Some(12));
    let kinds = [
        PieceType::Pawn,
        PieceType::Pawn,
        PieceType::Pawn,
        PieceType::Pawn,
        PieceType::Pawn,
        PieceType::Pawn,
        PieceType::Pawn,
        PieceType::Pawn,
        PieceType::Rook,
        PieceType::Knight,
        PieceType::Bishop,
        PieceType::Queen,
        PieceType::King,
        PieceType::Bishop,
        PieceType::Knight,
        PieceType::Rook,
    ];
    for (i, piece) in player.roster.iter().enumerate() {
        assert_eq!(piece.piece_type, kinds[i]);
        assert_eq!(piece_type_at(i), kinds[i]);
        assert_eq!(piece.owner, Color::Black);
        assert!(!piece.has_moved);
        assert_eq!(piece.location, None);
        assert_eq!(uuid::Uuid::from_u128(piece.id).get_version_num(), 4);
    }
    let mut ids: Vec<u128> = player.roster.iter().map(|p| p.id).collect();
    ids.sort();
    ids.dedup();
    assert_eq!(ids.len(), 16);
}

#[test]
fn populating_twice_appends() {
    let mut player = Player::new("bob", Color::White);
    player.populate_pieces();
    player.populate_pieces();
    assert_eq!(player.roster.len(), 32);
    assert_eq!(player.pieces, (0..32).collect::<Vec<usize>>());
    assert_eq!(player.king, Some(28));
    assert_eq!(player.roster[28].piece_type, PieceType::King);
}

#[test]
fn game_keeps_the_identities_of_its_players() {
    let white = Player::with_rc("bob", Color::White);
    let black = Player::with_rc("alice", Color::Black);
    let white_id = white.id;
    let black_id = black.id;
    let game = Game::new(white, black);
    assert_eq!(game.player1.name, "bob");
    assert_eq!(game.player1.id, white_id);
    assert_eq!(game.player1.color, Color::White);
    assert_eq!(game.player2.name, "alice");
    assert_eq!(game.player2.id, black_id);
    assert_eq!(game.player2.color, Color::Black);
}

#[test]
fn pieces_start_on_their_home_squares() {
    let game = Game::new(Player::with_rc("bob", Color::White), Player::with_rc("alice", Color::Black));
    for h in 0..16usize {
        let white = game.player1.roster[h];
        let black = game.player2.roster[h];
        let white_home =
            if h < 8 { LocationCoords { x: h, y: 6 } } else { LocationCoords { x: h - 8, y: 7 } };
        let black_home = if h < 8 {
            LocationCoords { x: 7 - h, y: 1 }
        } else if h == 11 {
            LocationCoords { x: 3, y: 0 }
        } else if h == 12 {
            LocationCoords { x: 4, y: 0 }
        } else {
            LocationCoords { x: 15 - h, y: 0 }
        };
        assert_eq!(white.location, Some(white_home));
        assert_eq!(black.location, Some(black_home));
        assert!(!white.has_moved);
        assert!(!black.has_moved);
        let cell = game.get_loc_cartesian(&white_home);
        assert_eq!(cell.piece.unwrap().index, h);
        assert_eq!(cell.piece.unwrap().owner, Color::White);
        assert_eq!(cell.coords, white_home);
        let cell = game.get_loc_cartesian(&black_home);
        assert_eq!(cell.piece.unwrap().index, h);
        assert_eq!(cell.piece.unwrap().owner, Color::Black);
    }
}

#[test]
fn black_may_be_the_first_player() {
    let game = Game::new(Player::with_rc("alice", Color::Black), Player::with_rc("bob", Color::White));
    assert_eq!(game.current_player, Color::Black);
    assert_eq!(game.piece_at(&LocationCoords { x: 4, y: 7 }).unwrap().owner, Color::Black);
    assert_eq!(game.piece_at(&LocationCoords { x: 4, y: 0 }).unwrap().owner, Color::White);
}

#[test]
fn starting_board_as_text() {
    let game = Game::new(Player::with_rc("bob", Color::White), Player::with_rc("alice", Color::Black));
    let expected = [
        " XR  XN  XB  XQ  XK  XB  XN  XR ",
        " XP  XP  XP  XP  XP  XP  XP  XP ",
        " __  __  __  __  __  __  __  __ ",
        " __  __  __  __  __  __  __  __ ",
        " __  __  __  __  __  __  __  __ ",
        " __  __  __  __  __  __  __  __ ",
        " OP  OP  OP  OP  OP  OP  OP  OP ",
        " OR  ON  OB  OQ  OK  OB  ON  OR ",
    ]
    .join("\n");
    assert_eq!(game.render(), expected);
}

#[test]
fn board_as_text_follows_the_moves() {
    let mut game =
        Game::new(Player::with_rc("bob", Color::White), Player::with_rc("alice", Color::Black));
    assert!(game.move_piece(LocationCoords { x: 4, y: 6 }, LocationCoords { x: 4, y: 4 }).is_ok());
    assert!(game.move_piece(LocationCoords { x: 1, y: 0 }, LocationCoords { x: 2, y: 2 }).is_ok());
    let expected = [
        " XR  __  XB  XQ  XK  XB  XN  XR ",
        " XP  XP  XP  XP  XP  XP  XP  XP ",
        " __  __  XN  __  __  __  __  __ ",
        " __  __  __  __  __  __  __  __ ",
        " __  __  __  __  OP  __  __  __ ",
        " __  __  __  __  __  __  __  __ ",
        " OP  OP  OP  OP  __  OP  OP  OP ",
        " OR  ON  OB  OQ  OK  OB  ON  OR ",
    ]
    .join("\n");
    assert_eq!(game.render(), expected);
}
