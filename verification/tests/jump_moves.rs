use checkers::{
    find_jump_moves_for_king, find_jump_moves_for_man, Board, BoardPosition, Direction, JumpMove,
    KingPiece, ManPiece, OccupiedTile, Player,
};

fn place_man(board: &mut Board, player: &Player, row: usize, col: usize) {
    let piece = ManPiece::new(player);
    let tile = OccupiedTile::new(Box::new(piece));
    board.set_tile(row, col, Box::new(tile));
}

fn check_jumping_alone(start_row: usize, start_col: usize) {
    let board = Board::new(8, 8);
    let player = Player { id: 0 };
    let direction = Direction::IncreasingRank;

    let result = find_jump_moves_for_man(&board, &player, direction, start_row, start_col);

    let exp_result = JumpMove::new(start_row, start_col);

    assert_eq!(exp_result, result);
}

#[test]
fn jumping_left_off_board() {
    check_jumping_alone(6, 1);
}

#[test]
fn jumping_right_off_board() {
    check_jumping_alone(6, 6);
}

#[test]
fn jumping_middle_of_board() {
    check_jumping_alone(4, 3);
}

fn check_single_jump_single_enemy(
    start_row: usize,
    start_col: usize,
    enemy_row: usize,
    enemy_col: usize,
    exp_result: JumpMove,
) {
    let mut board = Board::new(8, 8);
    let player = Player { id: 0 };
    let direction = Direction::IncreasingRank;

    let opponent = Player { id: 1 };

    place_man(&mut board, &opponent, enemy_row, enemy_col);

    let result = find_jump_moves_for_man(&board, &player, direction, start_row, start_col);

    assert_eq!(exp_result, result);
}

#[test]
fn jumping_adjacent_enemy_left() {
    check_single_jump_single_enemy(
        4,
        3,
        5,
        2,
        JumpMove::with_jumps(4, 3, vec![JumpMove::new(6, 1)]),
    );
}

#[test]
fn jumping_adjacent_enemy_right() {
    check_single_jump_single_enemy(
        4,
        3,
        5,
        4,
        JumpMove::with_jumps(4, 3, vec![JumpMove::new(6, 5)]),
    );
}

fn check_single_jump_two_enemies(
    start_row: usize,
    start_col: usize,
    left_enemy_row: usize,
    left_enemy_col: usize,
    right_enemy_row: usize,
    right_enemy_col: usize,
    exp_result: JumpMove,
) {
    let mut board = Board::new(8, 8);
    let player = Player { id: 0 };
    let direction = Direction::IncreasingRank;

    let opponent = Player { id: 1 };

    place_man(&mut board, &opponent, left_enemy_row, left_enemy_col);
    place_man(&mut board, &opponent, right_enemy_row, right_enemy_col);

    let result = find_jump_moves_for_man(&board, &player, direction, start_row, start_col);

    assert_eq!(exp_result, result);
}

#[test]
fn jumping_two_forward_adjacent_enemies() {
    check_single_jump_two_enemies(
        4,
        3,
        5,
        2,
        5,
        4,
        JumpMove::with_jumps(4, 3, vec![JumpMove::new(6, 1), JumpMove::new(6, 5)]),
    );
}

#[test]
fn jumping_two_backward_adjacent_enemies() {
    check_single_jump_two_enemies(6, 3, 5, 2, 5, 4, JumpMove::new(6, 3));
}

fn check_jumping_friendly_piece(
    start_row: usize,
    start_col: usize,
    friendly_row: usize,
    friendly_col: usize,
) {
    let mut board = Board::new(8, 8);
    let player = Player { id: 0 };
    let direction = Direction::IncreasingRank;

    place_man(&mut board, &player, friendly_row, friendly_col);

    let result = find_jump_moves_for_man(&board, &player, direction, start_row, start_col);

    let exp_result = JumpMove::new(start_row, start_col);

    assert_eq!(exp_result, result);
}

#[test]
fn jumping_adjacent_friendly_piece_left() {
    check_jumping_friendly_piece(6, 3, 5, 2);
}

#[test]
fn jumping_adjacent_friendly_piece_right() {
    check_jumping_friendly_piece(6, 3, 5, 4);
}

fn check_single_jump_blocked(
    start_row: usize,
    start_col: usize,
    pwnd_row: usize,
    pwnd_col: usize,
    blocked_row: usize,
    blocked_col: usize,
) {
    let mut board = Board::new(8, 8);
    let player = Player { id: 0 };
    let direction = Direction::IncreasingRank;

    let opponent = Player { id: 1 };
    place_man(&mut board, &opponent, pwnd_row, pwnd_col);
    place_man(&mut board, &player, blocked_row, blocked_col);

    let result = find_jump_moves_for_man(&board, &player, direction, start_row, start_col);

    let exp_result = JumpMove::new(start_row, start_col);

    assert_eq!(exp_result, result);
}

#[test]
fn jumping_adjacent_enemy_blocked_left() {
    check_single_jump_blocked(4, 3, 5, 2, 6, 1);
}

#[test]
fn jumping_adjacent_enemy_blocked_right() {
    check_single_jump_blocked(4, 3, 5, 4, 6, 5);
}

#[test]
fn jumping_two_forward_adjacent_enemies_left_blocked() {
    let mut board = Board::new(8, 8);
    let player = Player { id: 0 };
    let direction = Direction::IncreasingRank;
    let start_row = 4;
    let start_col = 3;

    let opponent = Player { id: 1 };

    let left_piece = ManPiece::new(&opponent);
    let left_tile = OccupiedTile::new(Box::new(left_piece));
    board.set_tile(5, 2, Box::new(left_tile));

    let block_piece = ManPiece::new(&player);
    let block_tile = OccupiedTile::new(Box::new(block_piece));
    board.set_tile(6, 1, Box::new(block_tile));

    let right_piece = ManPiece::new(&opponent);
    let right_tile = OccupiedTile::new(Box::new(right_piece));
    board.set_tile(5, 4, Box::new(right_tile));

    let result = find_jump_moves_for_man(&board, &player, direction, start_row, start_col);

    let exp_result = JumpMove::with_jumps(start_row, start_col, vec![JumpMove::new(6, 5)]);

    assert_eq!(exp_result, result);
}

#[test]
fn jumping_two_forward_adjacent_enemies_right_blocked() {
    let mut board = Board::new(8, 8);
    let player = Player { id: 0 };
    let direction = Direction::IncreasingRank;
    let start_row = 4;
    let start_col = 3;

    let opponent = Player { id: 1 };

    let left_piece = ManPiece::new(&opponent);
    let left_tile = OccupiedTile::new(Box::new(left_piece));
    board.set_tile(5, 2, Box::new(left_tile));

    let block_piece = ManPiece::new(&player);
    let block_tile = OccupiedTile::new(Box::new(block_piece));
    board.set_tile(6, 5, Box::new(block_tile));

    let right_piece = ManPiece::new(&opponent);
    let right_tile = OccupiedTile::new(Box::new(right_piece));
    board.set_tile(5, 4, Box::new(right_tile));

    let result = find_jump_moves_for_man(&board, &player, direction, start_row, start_col);

    let exp_result = JumpMove::with_jumps(start_row, start_col, vec![JumpMove::new(6, 1)]);

    assert_eq!(exp_result, result);
}

#[test]
fn the_one_true_test() {
    let mut board = Board::new(8, 8);
    let player = Player { id: 0 };
    let direction = Direction::DecreasingRank;

    let opponent = Player { id: 1 };

    let piece12 = ManPiece::new(&opponent);
    let tile12 = OccupiedTile::new(Box::new(piece12));
    board.set_tile(1, 2, Box::new(tile12));

    let piece14 = ManPiece::new(&opponent);
    let tile14 = OccupiedTile::new(Box::new(piece14));
    board.set_tile(1, 4, Box::new(tile14));

    let piece32 = ManPiece::new(&opponent);
    let tile32 = OccupiedTile::new(Box::new(piece32));
    board.set_tile(3, 2, Box::new(tile32));

    let piece34 = ManPiece::new(&opponent);
    let tile34 = OccupiedTile::new(Box::new(piece34));
    board.set_tile(3, 4, Box::new(tile34));

    let piece36 = ManPiece::new(&opponent);
    let tile36 = OccupiedTile::new(Box::new(piece36));
    board.set_tile(3, 6, Box::new(tile36));

    let piece52 = ManPiece::new(&opponent);
    let tile52 = OccupiedTile::new(Box::new(piece52));
    board.set_tile(5, 2, Box::new(tile52));

    let piece54 = ManPiece::new(&opponent);
    let tile54 = OccupiedTile::new(Box::new(piece54));
    board.set_tile(5, 4, Box::new(tile54));

    let piece63 = ManPiece::new(&player);
    let tile63 = OccupiedTile::new(Box::new(piece63));
    board.set_tile(6, 3, Box::new(tile63));

    let start_row = 6;
    let start_col = 3;

    let result = find_jump_moves_for_man(&board, &player, direction, start_row, start_col);

    let exp_result = JumpMove::with_jumps(
        start_row,
        start_col,
        vec![
            JumpMove::with_jumps(
                4,
                1,
                vec![JumpMove::with_jumps(
                    2,
                    3,
                    vec![JumpMove::new(0, 1), JumpMove::new(0, 5)],
                )],
            ),
            JumpMove::with_jumps(
                4,
                5,
                vec![
                    JumpMove::with_jumps(2, 3, vec![JumpMove::new(0, 1), JumpMove::new(0, 5)]),
                    JumpMove::new(2, 7),
                ],
            ),
        ],
    );

    assert_eq!(exp_result, result);
}

#[test]
fn no_adjacent_enemy_pieces() {
    let board = Board::new(8, 8);
    let player = Player { id: 0 };

    let start_row = 6;
    let start_col = 3;

    let result = find_jump_moves_for_king(&board, &player, start_row, start_col);
    let exp_result = JumpMove::new(start_row, start_col);

    assert_eq!(exp_result, result);
}

fn check_single_jump(enemy_row: usize, enemy_col: usize, exp_result: JumpMove) {
    let mut board = Board::new(8, 8);

    let player = Player { id: 0 };
    let opponent = Player { id: 1 };

    place_man(&mut board, &opponent, enemy_row, enemy_col);

    let result = find_jump_moves_for_king(&board, &player, 4, 3);

    assert_eq!(exp_result, result);
}

#[test]
fn single_jump_decr_rank_decr_file() {
    check_single_jump(5, 2, JumpMove::with_jumps(4, 3, vec![JumpMove::new(6, 1)]));
}

#[test]
fn single_jump_decr_rank_incr_file() {
    check_single_jump(5, 4, JumpMove::with_jumps(4, 3, vec![JumpMove::new(6, 5)]));
}

#[test]
fn single_jump_incr_rank_decr_file() {
    check_single_jump(3, 4, JumpMove::with_jumps(4, 3, vec![JumpMove::new(2, 5)]));
}

#[test]
fn single_jump_incr_rank_incr_file() {
    check_single_jump(3, 2, JumpMove::with_jumps(4, 3, vec![JumpMove::new(2, 1)]));
}

#[test]
fn jump_multiple_directions() {
    let mut board = Board::new(8, 8);

    let player = Player { id: 0 };
    let opponent = Player { id: 1 };

    let enemy_piece1 = ManPiece::new(&opponent);
    let enemy_tile1 = OccupiedTile::new(Box::new(enemy_piece1));
    board.set_tile(3, 2, Box::new(enemy_tile1));

    let enemy_piece2 = ManPiece::new(&opponent);
    let enemy_tile2 = OccupiedTile::new(Box::new(enemy_piece2));
    board.set_tile(3, 4, Box::new(enemy_tile2));

    let enemy_piece3 = ManPiece::new(&opponent);
    let enemy_tile3 = OccupiedTile::new(Box::new(enemy_piece3));
    board.set_tile(5, 4, Box::new(enemy_tile3));

    let enemy_piece4 = ManPiece::new(&opponent);
    let enemy_tile4 = OccupiedTile::new(Box::new(enemy_piece4));
    board.set_tile(5, 2, Box::new(enemy_tile4));

    let start_row = 4;
    let start_col = 3;

    let result = find_jump_moves_for_king(&board, &player, start_row, start_col);
    let exp_result = JumpMove::with_jumps(
        start_row,
        start_col,
        vec![
            JumpMove::new(2, 1),
            JumpMove::new(2, 5),
            JumpMove::new(6, 1),
            JumpMove::new(6, 5),
        ],
    );

    assert_eq!(exp_result, result);
}

#[test]
fn jump_in_a_circle() {
    let mut board = Board::new(8, 8);

    let player = Player { id: 0 };
    let opponent = Player { id: 1 };

    let start_row = 4;
    let start_col = 1;

    let friendly_piece = ManPiece::new(&player);
    let friendly_tile = OccupiedTile::new(Box::new(friendly_piece));
    board.set_tile(start_row, start_col, Box::new(friendly_tile));

    let enemy_piece1 = ManPiece::new(&opponent);
    let enemy_tile1 = OccupiedTile::new(Box::new(enemy_piece1));
    board.set_tile(3, 2, Box::new(enemy_tile1));

    let enemy_piece2 = ManPiece::new(&opponent);
    let enemy_tile2 = OccupiedTile::new(Box::new(enemy_piece2));
    board.set_tile(3, 4, Box::new(enemy_tile2));

    let enemy_piece3 = ManPiece::new(&opponent);
    let enemy_tile3 = OccupiedTile::new(Box::new(enemy_piece3));
    board.set_tile(5, 4, Box::new(enemy_tile3));

    let enemy_piece4 = ManPiece::new(&opponent);
    let enemy_tile4 = OccupiedTile::new(Box::new(enemy_piece4));
    board.set_tile(5, 2, Box::new(enemy_tile4));

    let result = find_jump_moves_for_king(&board, &player, start_row, start_col);
    let exp_result = JumpMove::with_jumps(
        start_row,
        start_col,
        vec![
            JumpMove::with_jumps(
                2,
                3,
                vec![JumpMove::with_jumps(
                    4,
                    5,
                    vec![JumpMove::with_jumps(6, 3, vec![JumpMove::new(start_row, start_col)])],
                )],
            ),
            JumpMove::with_jumps(
                6,
                3,
                vec![JumpMove::with_jumps(
                    4,
                    5,
                    vec![JumpMove::with_jumps(2, 3, vec![JumpMove::new(start_row, start_col)])],
                )],
            ),
        ],
    );

    assert_eq!(exp_result, result);
}

#[test]
fn king_does_not_land_on_another_piece() {
    let mut board = Board::new(8, 8);
    let player = Player { id: 0 };
    let opponent = Player { id: 1 };
    place_man(&mut board, &opponent, 3, 2);
    place_man(&mut board, &opponent, 2, 1);
    board.set_tile(4, 3, Box::new(OccupiedTile::new(Box::new(KingPiece::new(&player)))));

    let result = find_jump_moves_for_king(&board, &player, 4, 3);

    assert_eq!(JumpMove::new(4, 3), result);
}

#[test]
fn king_captures_each_piece_once_along_a_path() {
    let mut board = Board::new(8, 8);
    let player = Player { id: 0 };
    let opponent = Player { id: 1 };
    place_man(&mut board, &opponent, 3, 2);
    board.set_tile(4, 3, Box::new(OccupiedTile::new(Box::new(KingPiece::new(&player)))));

    let result = find_jump_moves_for_king(&board, &player, 4, 3);

    // from (2, 1) the king could go back over (3, 2), had it not captured there
    assert_eq!(JumpMove::with_jumps(4, 3, vec![JumpMove::new(2, 1)]), result);
}

#[test]
fn man_does_not_land_on_its_own_square() {
    let mut board = Board::new(8, 8);
    let player = Player { id: 0 };
    let opponent = Player { id: 1 };
    place_man(&mut board, &player, 6, 1);
    place_man(&mut board, &opponent, 5, 2);

    let result = find_jump_moves_for_man(&board, &player, Direction::IncreasingRank, 4, 3);

    assert_eq!(JumpMove::new(4, 3), result);
}

#[test]
fn jumps_at_the_edge_of_a_small_board() {
    let mut board = Board::new(3, 3);
    let player = Player { id: 0 };
    let opponent = Player { id: 1 };
    place_man(&mut board, &opponent, 1, 1);

    let man = find_jump_moves_for_man(&board, &player, Direction::IncreasingRank, 0, 0);
    assert_eq!(JumpMove::with_jumps(0, 0, vec![JumpMove::new(2, 2)]), man);
    let king = find_jump_moves_for_king(&board, &player, 2, 0);
    assert_eq!(JumpMove::with_jumps(2, 0, vec![JumpMove::new(0, 2)]), king);
    let outside = find_jump_moves_for_king(&board, &player, 3, 3);
    assert_eq!(JumpMove::new(3, 3), outside);
}

#[test]
fn tree_contains_each_walk_from_its_root() {
    let tree = JumpMove::with_jumps(
        6,
        3,
        vec![
            JumpMove::with_jumps(4, 1, vec![JumpMove::new(2, 3)]),
            JumpMove::with_jumps(4, 5, vec![JumpMove::new(2, 3), JumpMove::new(2, 7)]),
        ],
    );
    let at = BoardPosition::new;

    assert!(tree.contains_jump_sequence(&vec![at(6, 3)]));
    assert!(tree.contains_jump_sequence(&vec![at(6, 3), at(4, 1)]));
    assert!(tree.contains_jump_sequence(&vec![at(6, 3), at(4, 5), at(2, 7)]));
    assert!(tree.contains_jump_sequence(&vec![at(6, 3), at(4, 1), at(2, 3)]));
    assert!(!tree.contains_jump_sequence(&vec![]));
    assert!(!tree.contains_jump_sequence(&vec![at(4, 1)]));
    assert!(!tree.contains_jump_sequence(&vec![at(6, 3), at(4, 1), at(2, 7)]));
    assert!(!tree.contains_jump_sequence(&vec![at(6, 3), at(2, 3)]));
    assert!(!tree.contains_jump_sequence(&vec![at(6, 3), at(4, 5), at(2, 7), at(0, 5)]));
    assert_eq!(6, tree.from_row());
    assert_eq!(3, tree.from_column());
    assert_eq!(2, tree.jumps().len());
}

#[test]
fn tree_with_two_children_on_one_square_is_searched_through_both() {
    let tree = JumpMove::with_jumps(
        0,
        0,
        vec![
            JumpMove::with_jumps(2, 2, vec![JumpMove::new(4, 0)]),
            JumpMove::with_jumps(2, 2, vec![JumpMove::new(4, 4)]),
        ],
    );
    let at = BoardPosition::new;

    assert!(tree.contains_jump_sequence(&vec![at(0, 0), at(2, 2), at(4, 4)]));
}
