use checkers::{
    BoardPosition, Game, GameState, MoveError, Piece, PieceType, SimpleMove, Tile,
};

#[test]
fn good_simple_move() {
    let mut game = Game::new();
    let result = game.apply_simple_move(SimpleMove::new(2, 0, 3, 1));
    let exp_result: Result<GameState, MoveError> = Ok(GameState::InProgress);
    assert_eq!(exp_result, result);

    let player_id = game.current_player().id;
    assert_eq!(2, player_id);

    assert!(game.board().get_tile(3, 1).get_piece().is_some());
}

#[test]
fn bad_simple_move() {
    let mut game = Game::new();
    let result = game.apply_simple_move(SimpleMove::new(2, 0, 3, 0));
    let exp_result: Result<GameState, MoveError> = Err(MoveError::InvalidMove);
    assert_eq!(exp_result, result);

    let player_id = game.current_player().id;
    assert_eq!(1, player_id);

    assert!(game.board().get_tile(3, 0).get_piece().is_none());
}

#[test]
fn good_single_jump_move() {
    let mut game = Game::with_piece_positions(
        vec![BoardPosition::new(3, 3)],
        vec![BoardPosition::new(4, 4), BoardPosition::new(2, 2)],
    );

    let result = game.apply_jump_move(vec![BoardPosition::new(3, 3), BoardPosition::new(5, 5)]);
    let exp_result: Result<GameState, MoveError> = Ok(GameState::InProgress);
    assert_eq!(exp_result, result);

    let jumped_piece = game.board().get_tile(4, 4).get_piece();
    assert!(jumped_piece.is_none());

    let jumping_piece = game.board().get_tile(5, 5).get_piece();
    assert!(jumping_piece.is_some());
}

#[test]
fn good_multi_jump_move() {
    let mut game = Game::with_piece_positions(
        vec![BoardPosition::new(3, 3)],
        vec![BoardPosition::new(4, 4), BoardPosition::new(6, 4), BoardPosition::new(2, 2)],
    );

    let result = game.apply_jump_move(vec![
        BoardPosition::new(3, 3),
        BoardPosition::new(5, 5),
        BoardPosition::new(7, 3),
    ]);
    let exp_result: Result<GameState, MoveError> = Ok(GameState::InProgress);
    assert_eq!(exp_result, result);

    let jumped_piece1 = game.board().get_tile(4, 4).get_piece();
    assert!(jumped_piece1.is_none());

    let jumped_piece2 = game.board().get_tile(6, 4).get_piece();
    assert!(jumped_piece2.is_none());

    let jumping_piece = game.board().get_tile(7, 3).get_piece();
    assert!(jumping_piece.is_some());
}

#[test]
fn bad_jump_move() {
    let mut game = Game::new();
    let result = game.apply_jump_move(vec![BoardPosition::new(2, 0), BoardPosition::new(4, 2)]);
    let exp_result: Result<GameState, MoveError> = Err(MoveError::InvalidMove);
    assert_eq!(exp_result, result);

    let player_id = game.current_player().id;
    assert_eq!(1, player_id);

    assert!(game.board().get_tile(2, 0).get_piece().is_some());
    assert!(game.board().get_tile(4, 2).get_piece().is_none());
}

#[test]
fn not_jumping_when_jump_available() {
    let mut game =
        Game::with_piece_positions(vec![BoardPosition::new(3, 3)], vec![BoardPosition::new(4, 4)]);

    let result = game.apply_simple_move(SimpleMove::new(3, 3, 4, 2));
    let exp_result: Result<GameState, MoveError> = Err(MoveError::ShouldHaveJumped);
    assert_eq!(exp_result, result);
}

#[test]
fn player1_coronation() {
    let mut game =
        Game::with_piece_positions(vec![BoardPosition::new(6, 5)], vec![BoardPosition::new(1, 1)]);

    let result = game.apply_simple_move(SimpleMove::new(6, 5, 7, 4));
    let exp_result: Result<GameState, MoveError> = Ok(GameState::InProgress);
    assert_eq!(exp_result, result);

    let piece_type = game.board().get_tile(7, 4).get_piece().unwrap().get_type();
    match piece_type {
        PieceType::King => {}
        _ => panic!("Expected piece to be a King"),
    }
}

#[test]
fn player2_coronation() {
    let mut game =
        Game::with_piece_positions(vec![BoardPosition::new(4, 4)], vec![BoardPosition::new(1, 1)]);

    game.apply_simple_move(SimpleMove::new(4, 4, 5, 5)).unwrap();
    game.apply_simple_move(SimpleMove::new(1, 1, 0, 0)).unwrap();

    let piece_type = game.board().get_tile(0, 0).get_piece().unwrap().get_type();
    match piece_type {
        PieceType::King => {}
        _ => panic!("Expected piece to be a King"),
    }
}

#[test]
fn game_over_when_no_moves_for_current_player() {
    let mut game = Game::with_piece_positions(vec![BoardPosition::new(4, 4)], vec![]);

    let result = game.apply_simple_move(SimpleMove::new(4, 4, 5, 5));
    let exp_result: Result<GameState, MoveError> = Ok(GameState::GameOver { winner_id: 1 });
    assert_eq!(exp_result, result);
}
