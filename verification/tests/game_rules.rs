use checkers::{
    apply_positions_as_move, AnyPiece, BoardPosition, Game, GameState, KingPiece, ManPiece,
    MoveError, Piece, PieceType, SimpleMove, Tile,
};

fn at(row: usize, column: usize) -> BoardPosition {
    BoardPosition::new(row, column)
}

fn piece_at(game: &Game, row: usize, column: usize) -> Option<AnyPiece> {
    game.board().get_tile(row, column).get_piece().copied()
}

fn count_pieces(game: &Game) -> usize {
    let mut count = 0;
    for row in 0..game.board().number_rows() {
        for column in 0..game.board().number_columns() {
            if piece_at(game, row, column).is_some() {
                count += 1;
            }
        }
    }
    count
}

#[test]
fn new_game_is_the_opening_position() {
    let game = Game::new();

    assert_eq!(1, game.current_player().id);
    assert_eq!(8, game.board().number_rows());
    assert_eq!(8, game.board().number_columns());
    for row in 0..8 {
        for column in 0..8 {
            let expected = if (row + column) % 2 != 0 {
                None
            } else if row < 3 {
                Some(AnyPiece::Man(ManPiece { player_id: 1 }))
            } else if row >= 5 {
                Some(AnyPiece::Man(ManPiece { player_id: 2 }))
            } else {
                None
            };
            assert_eq!(expected, piece_at(&game, row, column));
        }
    }
}

#[test]
fn pieces_are_placed_where_asked() {
    let game = Game::with_piece_positions(vec![at(0, 0), at(3, 4)], vec![at(7, 7)]);

    assert_eq!(1, game.current_player().id);
    assert_eq!(3, count_pieces(&game));
    assert_eq!(Some(AnyPiece::Man(ManPiece { player_id: 1 })), piece_at(&game, 0, 0));
    assert_eq!(Some(AnyPiece::Man(ManPiece { player_id: 1 })), piece_at(&game, 3, 4));
    assert_eq!(Some(AnyPiece::Man(ManPiece { player_id: 2 })), piece_at(&game, 7, 7));
}

#[test]
fn simple_move_leaves_the_start_and_changes_nothing_else() {
    let mut game = Game::new();

    let result = game.apply_simple_move(SimpleMove::new(2, 2, 3, 3));

    assert_eq!(Ok(GameState::InProgress), result);
    assert_eq!(None, piece_at(&game, 2, 2));
    assert_eq!(Some(AnyPiece::Man(ManPiece { player_id: 1 })), piece_at(&game, 3, 3));
    assert_eq!(24, count_pieces(&game));
    assert_eq!(2, game.current_player().id);
}

#[test]
fn second_player_moves_toward_lower_rows() {
    let mut game = Game::new();
    game.apply_simple_move(SimpleMove::new(2, 2, 3, 3)).unwrap();

    let backward = game.apply_simple_move(SimpleMove::new(5, 1, 6, 2));
    assert_eq!(Err(MoveError::InvalidMove), backward);
    let forward = game.apply_simple_move(SimpleMove::new(5, 1, 4, 2));
    assert_eq!(Ok(GameState::InProgress), forward);
    assert_eq!(1, game.current_player().id);
}

#[test]
fn simple_move_of_the_other_player_is_invalid() {
    let mut game = Game::new();

    let result = game.apply_simple_move(SimpleMove::new(5, 1, 4, 2));

    assert_eq!(Err(MoveError::InvalidMove), result);
    assert_eq!(1, game.current_player().id);
    assert_eq!(Some(AnyPiece::Man(ManPiece { player_id: 2 })), piece_at(&game, 5, 1));
}

#[test]
fn simple_move_from_an_empty_tile_or_off_the_board_is_invalid() {
    let mut game = Game::new();

    assert_eq!(Err(MoveError::InvalidMove), game.apply_simple_move(SimpleMove::new(3, 3, 4, 4)));
    assert_eq!(Err(MoveError::InvalidMove), game.apply_simple_move(SimpleMove::new(2, 0, 3, 9)));
    assert_eq!(Err(MoveError::InvalidMove), game.apply_simple_move(SimpleMove::new(9, 9, 10, 10)));
    assert_eq!(Err(MoveError::InvalidMove), game.apply_simple_move(SimpleMove::new(1, 1, 2, 2)));
}

#[test]
fn capture_comes_before_a_simple_move_of_any_piece() {
    let mut game = Game::with_piece_positions(vec![at(3, 3), at(0, 0)], vec![at(4, 4)]);

    let result = game.apply_simple_move(SimpleMove::new(0, 0, 1, 1));

    assert_eq!(Err(MoveError::ShouldHaveJumped), result);
    assert_eq!(1, game.current_player().id);
    assert_eq!(Some(AnyPiece::Man(ManPiece { player_id: 1 })), piece_at(&game, 0, 0));
    // not even a move that no piece has is looked at before the capture
    let result = game.apply_simple_move(SimpleMove::new(6, 6, 7, 7));
    assert_eq!(Err(MoveError::ShouldHaveJumped), result);
}

#[test]
fn capture_clears_the_tile_passed_and_keeps_the_piece() {
    let mut game = Game::with_piece_positions(vec![at(3, 3)], vec![at(4, 4), at(2, 2), at(7, 7)]);

    let result = game.apply_jump_move(vec![at(3, 3), at(5, 5)]);

    assert_eq!(Ok(GameState::InProgress), result);
    assert_eq!(None, piece_at(&game, 3, 3));
    assert_eq!(None, piece_at(&game, 4, 4));
    assert_eq!(Some(AnyPiece::Man(ManPiece { player_id: 1 })), piece_at(&game, 5, 5));
    assert_eq!(Some(AnyPiece::Man(ManPiece { player_id: 2 })), piece_at(&game, 2, 2));
    assert_eq!(Some(AnyPiece::Man(ManPiece { player_id: 2 })), piece_at(&game, 7, 7));
    assert_eq!(3, count_pieces(&game));
    assert_eq!(2, game.current_player().id);
}

#[test]
fn capture_to_the_last_rank_makes_a_king() {
    let mut game =
        Game::with_piece_positions(vec![at(3, 3)], vec![at(4, 4), at(6, 4), at(2, 2)]);

    let result = game.apply_jump_move(vec![at(3, 3), at(5, 5), at(7, 3)]);

    assert_eq!(Ok(GameState::InProgress), result);
    assert_eq!(Some(AnyPiece::King(KingPiece { player_id: 1 })), piece_at(&game, 7, 3));
    assert_eq!(2, count_pieces(&game));
}

#[test]
fn capture_may_stop_before_the_end_of_its_path() {
    let mut game =
        Game::with_piece_positions(vec![at(3, 3)], vec![at(4, 4), at(6, 4), at(2, 2)]);

    let result = game.apply_jump_move(vec![at(3, 3), at(5, 5)]);

    assert_eq!(Ok(GameState::InProgress), result);
    assert_eq!(None, piece_at(&game, 4, 4));
    assert_eq!(Some(AnyPiece::Man(ManPiece { player_id: 2 })), piece_at(&game, 6, 4));
    assert_eq!(Some(AnyPiece::Man(ManPiece { player_id: 1 })), piece_at(&game, 5, 5));
}

#[test]
fn path_without_a_capture_is_invalid() {
    let mut game = Game::with_piece_positions(vec![at(3, 3)], vec![at(4, 4)]);

    assert_eq!(Err(MoveError::InvalidMove), game.apply_jump_move(vec![]));
    assert_eq!(Err(MoveError::InvalidMove), game.apply_jump_move(vec![at(3, 3)]));
    assert_eq!(1, game.current_player().id);
    assert_eq!(Some(AnyPiece::Man(ManPiece { player_id: 1 })), piece_at(&game, 3, 3));
    assert_eq!(Some(AnyPiece::Man(ManPiece { player_id: 2 })), piece_at(&game, 4, 4));
}

#[test]
fn path_that_leaves_its_tree_is_invalid() {
    let mut game =
        Game::with_piece_positions(vec![at(3, 3)], vec![at(4, 4), at(6, 4), at(2, 2)]);

    let too_long = game.apply_jump_move(vec![at(3, 3), at(5, 5), at(7, 3), at(5, 1)]);
    assert_eq!(Err(MoveError::InvalidMove), too_long);
    let wrong_turn = game.apply_jump_move(vec![at(3, 3), at(5, 5), at(7, 7)]);
    assert_eq!(Err(MoveError::InvalidMove), wrong_turn);
    let backward = game.apply_jump_move(vec![at(3, 3), at(1, 1)]);
    assert_eq!(Err(MoveError::InvalidMove), backward);
    let far_away = game.apply_jump_move(vec![at(usize::MAX, 3), at(5, usize::MAX)]);
    assert_eq!(Err(MoveError::InvalidMove), far_away);
    assert_eq!(4, count_pieces(&game));
    assert_eq!(1, game.current_player().id);
}

#[test]
fn man_on_the_last_rank_is_a_king_and_a_king_there_stays_one() {
    let mut game = Game::with_piece_positions(vec![at(6, 5)], vec![at(7, 0), at(5, 0)]);

    game.apply_simple_move(SimpleMove::new(6, 5, 7, 4)).unwrap();
    assert_eq!(Some(AnyPiece::King(KingPiece { player_id: 1 })), piece_at(&game, 7, 4));
    game.apply_simple_move(SimpleMove::new(5, 0, 4, 1)).unwrap();
    // the king goes back, which no man could
    game.apply_simple_move(SimpleMove::new(7, 4, 6, 5)).unwrap();
    assert_eq!(Some(AnyPiece::King(KingPiece { player_id: 1 })), piece_at(&game, 6, 5));
    game.apply_simple_move(SimpleMove::new(4, 1, 3, 0)).unwrap();
    // and comes to the last rank once more
    game.apply_simple_move(SimpleMove::new(6, 5, 7, 6)).unwrap();
    assert_eq!(Some(AnyPiece::King(KingPiece { player_id: 1 })), piece_at(&game, 7, 6));
    assert_eq!(PieceType::King, piece_at(&game, 7, 6).unwrap().get_type());
    assert_eq!(1, piece_at(&game, 7, 6).unwrap().get_player_id());
}

#[test]
fn man_on_any_other_rank_stays_a_man() {
    let mut game = Game::with_piece_positions(vec![at(0, 0)], vec![at(7, 7)]);

    game.apply_simple_move(SimpleMove::new(0, 0, 1, 1)).unwrap();
    assert_eq!(Some(AnyPiece::Man(ManPiece { player_id: 1 })), piece_at(&game, 1, 1));
    // row 7 is the first rank of the second player, not its last
    game.apply_simple_move(SimpleMove::new(7, 7, 6, 6)).unwrap();
    assert_eq!(Some(AnyPiece::Man(ManPiece { player_id: 2 })), piece_at(&game, 6, 6));
}

#[test]
fn king_captures_backward_and_wins() {
    let mut game = Game::with_piece_positions(vec![at(6, 5)], vec![at(7, 2)]);

    assert_eq!(
        Ok(GameState::InProgress),
        game.apply_simple_move(SimpleMove::new(6, 5, 7, 4))
    );
    assert_eq!(
        Ok(GameState::InProgress),
        game.apply_simple_move(SimpleMove::new(7, 2, 6, 3))
    );
    assert_eq!(
        Err(MoveError::ShouldHaveJumped),
        game.apply_simple_move(SimpleMove::new(7, 4, 6, 5))
    );

    let result = game.apply_jump_move(vec![at(7, 4), at(5, 2)]);

    assert_eq!(Ok(GameState::GameOver { winner_id: 1 }), result);
    assert_eq!(Some(AnyPiece::King(KingPiece { player_id: 1 })), piece_at(&game, 5, 2));
    assert_eq!(1, count_pieces(&game));
    assert_eq!(2, game.current_player().id);
}

#[test]
fn second_player_wins_when_the_first_is_blocked() {
    // the man on (0, 0) can neither move nor capture: (1, 1) is held, and (2, 2) behind it
    let mut game = Game::with_piece_positions(
        vec![at(0, 0), at(2, 5)],
        vec![at(1, 1), at(2, 2), at(4, 7)],
    );

    assert_eq!(
        Ok(GameState::InProgress),
        game.apply_simple_move(SimpleMove::new(2, 5, 3, 6))
    );
    let result = game.apply_jump_move(vec![at(4, 7), at(2, 5)]);

    assert_eq!(Ok(GameState::GameOver { winner_id: 2 }), result);
    assert_eq!(1, game.current_player().id);
    assert_eq!(Some(AnyPiece::Man(ManPiece { player_id: 1 })), piece_at(&game, 0, 0));
    assert_eq!(None, piece_at(&game, 3, 6));
    assert_eq!(4, count_pieces(&game));
}

#[test]
fn two_positions_side_by_side_ask_for_a_simple_move() {
    let mut game = Game::new();

    let result = apply_positions_as_move(&mut game, vec![at(2, 0), at(3, 1)]);

    assert_eq!(Ok(GameState::InProgress), result);
    assert_eq!(Some(AnyPiece::Man(ManPiece { player_id: 1 })), piece_at(&game, 3, 1));
}

#[test]
fn two_positions_side_by_side_must_not_pass_a_capture() {
    let mut game = Game::with_piece_positions(vec![at(3, 3)], vec![at(4, 4)]);

    let result = apply_positions_as_move(&mut game, vec![at(3, 3), at(4, 2)]);

    assert_eq!(Err(MoveError::ShouldHaveJumped), result);
}

#[test]
fn other_positions_ask_for_a_capture() {
    let mut game =
        Game::with_piece_positions(vec![at(3, 3)], vec![at(4, 4), at(6, 4), at(2, 2)]);

    assert_eq!(
        Err(MoveError::InvalidMove),
        apply_positions_as_move(&mut game, vec![at(3, 3), at(3, 4)])
    );
    assert_eq!(Err(MoveError::InvalidMove), apply_positions_as_move(&mut game, vec![at(3, 3)]));
    let result = apply_positions_as_move(&mut game, vec![at(3, 3), at(5, 5), at(7, 3)]);
    assert_eq!(Ok(GameState::InProgress), result);
    assert_eq!(None, piece_at(&game, 4, 4));
    assert_eq!(None, piece_at(&game, 6, 4));
}
