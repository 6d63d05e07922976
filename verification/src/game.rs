use crate::ai::{
    find_jump_moves_for_king, find_jump_moves_for_man, find_simple_moves_for_king,
    find_simple_moves_for_man, is_walk, jump_trees, position_set, Direction, JumpMove, SimpleMove,
};
use crate::board::{Board, BoardPosition, Grid};
use crate::piece::{AnyPiece, KingPiece, ManPiece, Piece, PieceType};
use crate::player::Player;
use crate::laws::{lemma_capture_path, lemma_captures_made};
use crate::rules::{
    captures_removed, crowned, lemma_piece_simple_move, lemma_simple_move_available,
    piece_jump_trees, piece_simple_moves, player_direction, player_id, row_jump_trees,
    row_simple_moves, rows_jump_trees, rows_simple_moves, two_players_only, GameState, GameView,
    MoveError,
};
use crate::tile::{OccupiedTile, Tile};
use crate::util::absolute_diff;
use crate::walks::is_king_step;
use vstd::prelude::*;

verus! {

struct PlayerInfo {
    player: Player,
    direction: Direction,
}

/// A game of two players on one board. It keeps, for the player whose turn
/// it is, the simple moves and the capture trees that the player has.
pub struct Game {
    players: [PlayerInfo; 2],
    board: Board,
    current_player_index: usize,
    available_simple_moves: Vec<SimpleMove>,
    available_jump_moves: Vec<JumpMove>,
}

impl View for Game {
    type V = GameView;

    closed spec fn view(&self) -> GameView {
        GameView { board: self.board@, current: self.current_player_index as int }
    }
}

/// The position of an 8 by 8 board on which men of the first player stand
/// on the squares of one list, men of the second player on those of another,
/// and nothing else.
pub open spec fn men_placed(first: Seq<BoardPosition>, second: Seq<BoardPosition>) -> Grid {
    Grid {
        rows: 8,
        columns: 8,
        tiles: Seq::new(
            8,
            |row: int|
                Seq::new(
                    8,
                    |col: int|
                        if position_set(first).contains((row, col)) {
                            Some(AnyPiece::Man(ManPiece { player_id: player_id(0) }))
                        } else if position_set(second).contains((row, col)) {
                            Some(AnyPiece::Man(ManPiece { player_id: player_id(1) }))
                        } else {
                            None
                        },
                ),
        ),
    }
}

impl Game {
    /// The board is well formed, 8 by 8, and holds pieces of the two players
    /// only; the two players are the two that every game has, and one of them
    /// is to move.
    closed spec fn seated(&self) -> bool {
        &&& self.board.wf()
        &&& self@.wf()
        &&& self.current_player_index < 2
        &&& forall|i: int|
            0 <= i < 2 ==> (#[trigger] self.players[i]).player.id == player_id(i) && self.players[i].direction
                == player_direction(i)
    }

    /// The game is consistent: beyond the above, the moves that it keeps are
    /// those that the player to move has on the board as it stands.
    pub closed spec fn wf(&self) -> bool {
        &&& self.seated()
        &&& self.available_simple_moves@ == self@.simple_moves()
        &&& jump_trees(self.available_jump_moves@) == self@.jump_trees()
    }

    /// The view of a consistent game is a game: its board is 8 by 8 and holds
    /// pieces of the two players only, and one of the two is to move.
    pub proof fn lemma_view_wf(&self)
        requires
            self.wf(),
        ensures
            self@.wf(),
    {
    }

    /// A new game in the standard opening position, the first player to move.
    pub fn new() -> (game: Game)
        ensures
            game.wf(),
            game@.board == Grid::opening(player_id(0), player_id(1)),
            game@.current == 0,
    {
        let (player1, player2) = Game::create_two_players();

        let board = Board::new_checkerboard(&player1, &player2);

        Game::with_board_and_players(board, player1, player2)
    }

    /// Creates a new Checkers game with an 8x8 board and the specified piece
    /// layout `player1_positions` contains the pieces for the first player,
    /// and `player2_positions` contains the pieces for the second player. All
    /// pieces are initially `ManPiece`s.
    ///
    /// No position may have a row or column outside the range [0, 7], and no
    /// two positions may be the same.
    pub fn with_piece_positions(
        player1_positions: Vec<BoardPosition>,
        player2_positions: Vec<BoardPosition>,
    ) -> (game: Game)
        requires
            forall|i: int|
                0 <= i < player1_positions.len() ==> (#[trigger] player1_positions[i]).row < 8
                    && player1_positions[i].column < 8,
            forall|i: int|
                0 <= i < player2_positions.len() ==> (#[trigger] player2_positions[i]).row < 8
                    && player2_positions[i].column < 8,
            forall|i: int, j: int|
                0 <= i < j < player1_positions.len() ==> player1_positions[i] != player1_positions[j],
            forall|i: int, j: int|
                0 <= i < j < player2_positions.len() ==> player2_positions[i] != player2_positions[j],
            forall|i: int, j: int|
                0 <= i < player1_positions.len() && 0 <= j < player2_positions.len()
                    ==> player1_positions[i] != player2_positions[j],
        ensures
            game.wf(),
            game@.board == men_placed(player1_positions@, player2_positions@),
            game@.current == 0,
    {
        let checkerboard_size: usize = 8;
        assert(8 * 8 == 64);
        let mut board = Board::new(checkerboard_size, checkerboard_size);

        let (player1, player2) = Game::create_two_players();

        Game::initialize_pieces(&mut board, &player1, &player1_positions);
        Game::initialize_pieces(&mut board, &player2, &player2_positions);
        proof {
            board.lemma_view_wf();
            let placed = men_placed(player1_positions@, player2_positions@);
            assert forall|r: int, c: int| board@.in_bounds(r, c) implies board@.at(r, c) == placed.at(
                r,
                c,
            ) by {
                if position_set(player1_positions@).contains((r, c)) && position_set(
                    player2_positions@,
                ).contains((r, c)) {
                    let i = choose|i: int|
                        0 <= i < player1_positions@.len() && (#[trigger] player1_positions@[i]).row
                            == r && player1_positions@[i].column == c;
                    let j = choose|j: int|
                        0 <= j < player2_positions@.len() && (#[trigger] player2_positions@[j]).row
                            == r && player2_positions@[j].column == c;
                    assert(player1_positions[i] == player2_positions[j]);
                }
            }
            board@.lemma_ext_equal(placed);
        }

        Game::with_board_and_players(board, player1, player2)
    }

    // creates and returns two players with distinct IDs
    fn create_two_players() -> (players: (Player, Player))
        ensures
            players.0.id == player_id(0),
            players.1.id == player_id(1),
    {
        (Player { id: 1 }, Player { id: 2 })
    }

    // adds man pieces belonging to a particular player
    // at the specified positions on a board
    fn initialize_pieces(board: &mut Board, player: &Player, positions: &Vec<BoardPosition>)
        requires
            old(board).wf(),
            forall|i: int|
                0 <= i < positions.len() ==> (#[trigger] positions[i]).row < old(board)@.rows
                    && positions[i].column < old(board)@.columns,
        ensures
            final(board).wf(),
            final(board)@.rows == old(board)@.rows,
            final(board)@.columns == old(board)@.columns,
            forall|r: int, c: int|
                #[trigger] final(board)@.at(r, c) == if position_set(positions@).contains((r, c)) {
                    Some(AnyPiece::Man(ManPiece { player_id: player.id }))
                } else {
                    old(board)@.at(r, c)
                },
    {
        let mut i: usize = 0;
        while i < positions.len()
            invariant
                i <= positions.len(),
                board.wf(),
                board@.rows == old(board)@.rows,
                board@.columns == old(board)@.columns,
                forall|i: int|
                    0 <= i < positions.len() ==> (#[trigger] positions[i]).row < old(board)@.rows
                        && positions[i].column < old(board)@.columns,
                forall|r: int, c: int|
                    #[trigger] board@.at(r, c) == if position_set(positions@.take(i as int)).contains(
                        (r, c),
                    ) {
                        Some(AnyPiece::Man(ManPiece { player_id: player.id }))
                    } else {
                        old(board)@.at(r, c)
                    },
            decreases positions.len() - i,
        {
            let pos = positions[i];
            let piece = ManPiece::new(player);
            let tile = OccupiedTile::new(Box::new(piece));
            let ghost before = board@;
            proof {
                board.lemma_view_wf();
            }
            board.set_tile(pos.row, pos.column, Box::new(tile));
            proof {
                before.lemma_set(pos.row as int, pos.column as int, Some(AnyPiece::Man(piece)));
                crate::ai::lemma_position_set_push(positions@.take(i as int), pos);
                assert(positions@.take(i as int).push(pos) =~= positions@.take(i + 1));
            }
            i += 1;
        }
        assert(positions@.take(positions.len() as int) =~= positions@);
    }

    fn with_board_and_players(board: Board, player1: Player, player2: Player) -> (game: Game)
        requires
            board.wf(),
            board@.rows == 8,
            board@.columns == 8,
            two_players_only(board@),
            player1.id == player_id(0),
            player2.id == player_id(1),
        ensures
            game.wf(),
            game@.board == board@,
            game@.current == 0,
    {
        let player1_info = PlayerInfo { player: player1, direction: Direction::IncreasingRank };
        let player2_info = PlayerInfo { player: player2, direction: Direction::DecreasingRank };

        proof {
            board.lemma_view_wf();
        }
        let mut game = Game {
            players: [player1_info, player2_info],
            board: board,
            current_player_index: 0,
            available_simple_moves: Vec::new(),
            available_jump_moves: Vec::new(),
        };

        game.find_available_moves();

        game
    }

    fn current_player_info(&self) -> (info: &PlayerInfo)
        requires
            self.seated(),
        ensures
            info.player.id == self@.player(),
            info.direction == self@.direction(),
    {
        &self.players[self.current_player_index]
    }

    fn find_available_simple_moves(&self) -> (moves: Vec<SimpleMove>)
        requires
            self.seated(),
        ensures
            moves@ == self@.simple_moves(),
    {
        let mut moves = Vec::new();

        let curr_player_info = self.current_player_info();
        let curr_player = &curr_player_info.player;
        let curr_player_id: u32 = curr_player.id;
        let curr_direction = curr_player_info.direction;
        let ghost grid = self.board@;
        let number_rows: usize = self.board.number_rows();
        let number_columns: usize = self.board.number_columns();
        let mut r: usize = 0;
        while r < number_rows
            invariant
                r <= number_rows,
                self.seated(),
                grid == self.board@,
                number_rows == grid.rows,
                number_columns == grid.columns,
                moves@ == rows_simple_moves(grid, curr_player_id, curr_direction, r as int),
            decreases number_rows - r,
        {
            let ghost before_row = moves@;
            let mut c: usize = 0;
            while c < number_columns
                invariant
                    r < number_rows,
                    c <= number_columns,
                    self.seated(),
                    grid == self.board@,
                    number_rows == grid.rows,
                    number_columns == grid.columns,
                    moves@ == before_row + row_simple_moves(
                        grid,
                        curr_player_id,
                        curr_direction,
                        r as int,
                        c as int,
                    ),
                decreases number_columns - c,
            {
                let ghost before = moves@;
                let ghost found = piece_simple_moves(
                    grid,
                    curr_player_id,
                    curr_direction,
                    r as int,
                    c as int,
                );
                match self.board.get_tile(r, c).get_piece() {
                    Some(piece) => if piece.get_player_id() == curr_player_id {
                        let mut piece_moves = match piece.get_type() {
                            PieceType::Man => find_simple_moves_for_man(
                                &self.board,
                                curr_direction,
                                r,
                                c,
                            ),
                            PieceType::King => find_simple_moves_for_king(&self.board, r, c),
                        };
                        moves.append(&mut piece_moves);
                    },
                    None => {},
                }
                assert(moves@ =~= before + found);
                assert(moves@ =~= before_row + row_simple_moves(
                    grid,
                    curr_player_id,
                    curr_direction,
                    r as int,
                    c + 1,
                ));
                c += 1;
            }
            r += 1;
        }

        moves
    }

    fn find_available_jump_moves(&self) -> (moves: Vec<JumpMove>)
        requires
            self.seated(),
        ensures
            jump_trees(moves@) == self@.jump_trees(),
    {
        let mut moves: Vec<JumpMove> = Vec::new();

        let curr_player_info = self.current_player_info();
        let curr_player = &curr_player_info.player;
        let curr_player_id: u32 = curr_player.id;
        let curr_direction = curr_player_info.direction;
        let ghost grid = self.board@;
        let number_rows: usize = self.board.number_rows();
        let number_columns: usize = self.board.number_columns();
        let mut r: usize = 0;
        while r < number_rows
            invariant
                r <= number_rows,
                self.seated(),
                grid == self.board@,
                number_rows == grid.rows,
                number_columns == grid.columns,
                curr_player.id == curr_player_id,
                jump_trees(moves@) == rows_jump_trees(grid, curr_player_id, curr_direction, r as int),
            decreases number_rows - r,
        {
            let ghost before_row = jump_trees(moves@);
            let mut c: usize = 0;
            while c < number_columns
                invariant
                    r < number_rows,
                    c <= number_columns,
                    self.seated(),
                    grid == self.board@,
                    number_rows == grid.rows,
                    number_columns == grid.columns,
                    curr_player.id == curr_player_id,
                    jump_trees(moves@) == before_row + row_jump_trees(
                        grid,
                        curr_player_id,
                        curr_direction,
                        r as int,
                        c as int,
                    ),
                decreases number_columns - c,
            {
                let ghost before = jump_trees(moves@);
                let ghost found = piece_jump_trees(
                    grid,
                    curr_player_id,
                    curr_direction,
                    r as int,
                    c as int,
                );
                match self.board.get_tile(r, c).get_piece() {
                    Some(piece) => if piece.get_player_id() == curr_player_id {
                        let jump_move = match piece.get_type() {
                            PieceType::Man => find_jump_moves_for_man(
                                &self.board,
                                curr_player,
                                curr_direction,
                                r,
                                c,
                            ),
                            PieceType::King => find_jump_moves_for_king(
                                &self.board,
                                curr_player,
                                r,
                                c,
                            ),
                        };
                        if !jump_move.jumps().is_empty() {
                            moves.push(jump_move);
                        }
                    },
                    None => {},
                }
                assert(jump_trees(moves@) =~= before + found);
                assert(jump_trees(moves@) =~= before_row + row_jump_trees(
                    grid,
                    curr_player_id,
                    curr_direction,
                    r as int,
                    c + 1,
                ));
                c += 1;
            }
            r += 1;
        }

        moves
    }

    fn find_available_moves(&mut self)
        requires
            old(self).seated(),
        ensures
            final(self).wf(),
            final(self)@ == old(self)@,
    {
        self.available_simple_moves = self.find_available_simple_moves();
        self.available_jump_moves = self.find_available_jump_moves();
    }

    // replaces a man that has reached its last rank by a king
    fn check_for_coronation(&mut self, row: usize, col: usize)
        requires
            old(self).seated(),
            row < old(self)@.board.rows,
            col < old(self)@.board.columns,
            old(self)@.board.at(row as int, col as int) matches Some(piece) && piece.owner() == old(
                self,
            )@.player(),
        ensures
            final(self).seated(),
            final(self)@ == (GameView {
                board: crowned(old(self)@.board, old(self)@.direction(), row as int, col as int),
                ..old(self)@
            }),
    {
        let number_rows: usize = self.board.number_rows();
        let coronate = match self.board.get_tile(row, col).get_piece() {
            Some(piece) => match piece.get_type() {
                PieceType::Man => match self.current_player_info().direction {
                    Direction::IncreasingRank => row + 1 == number_rows,
                    Direction::DecreasingRank => row == 0,
                },
                PieceType::King => false,
            },
            None => false,
        };

        if coronate {
            let king = KingPiece::new(&self.current_player_info().player);
            let tile = OccupiedTile::new(Box::new(king));
            proof {
                old(self)@.board.lemma_set(row as int, col as int, Some(AnyPiece::King(king)));
            }
            self.board.set_tile(row, col, Box::new(tile))
        }
    }

    fn select_next_player(&mut self)
        requires
            old(self).seated(),
        ensures
            final(self).seated(),
            final(self)@ == (GameView { current: 1 - old(self)@.current, ..old(self)@ }),
    {
        // this assumes a two player game
        self.current_player_index = 1 - self.current_player_index;
    }

    fn is_game_over(&self) -> (over: bool)
        requires
            self.wf(),
        ensures
            over == self@.has_no_move(),
    {
        // This works if it is called after the available moves for the
        // next player are computed. If this player has no moves, it means
        // they have no pieces left, or all of their pieces are stuck.
        // Either way, they lose.
        assert(jump_trees(self.available_jump_moves@).len() == self.available_jump_moves@.len());
        self.available_simple_moves.is_empty() && self.available_jump_moves.is_empty()
    }

    fn finish_move(&mut self, final_row: usize, final_col: usize) -> (state: GameState)
        requires
            old(self).seated(),
            final_row < old(self)@.board.rows,
            final_col < old(self)@.board.columns,
            old(self)@.board.at(final_row as int, final_col as int) matches Some(piece)
                && piece.owner() == old(self)@.player(),
        ensures
            final(self).wf(),
            final(self)@ == old(self)@.after_ply(
                old(self)@.board,
                final_row as int,
                final_col as int,
            ),
            state == old(self)@.state_after(final(self)@),
    {
        self.check_for_coronation(final_row, final_col);

        self.select_next_player();
        self.find_available_moves();

        if self.is_game_over() {
            let winner_id: u32 = self.players[1 - self.current_player_index].player.id;
            GameState::GameOver { winner_id: winner_id }
        } else {
            GameState::InProgress
        }
    }

    // tells whether a simple move is among those that the player to move has
    fn simple_move_available(&self, the_move: &SimpleMove) -> (available: bool)
        ensures
            available == self.available_simple_moves@.contains(*the_move),
    {
        let mut i: usize = 0;
        while i < self.available_simple_moves.len()
            invariant
                i <= self.available_simple_moves.len(),
                forall|k: int| 0 <= k < i ==> self.available_simple_moves[k] != *the_move,
            decreases self.available_simple_moves.len() - i,
        {
            if self.available_simple_moves[i] == *the_move {
                return true;
            }
            i += 1;
        }
        false
    }

    // tells whether a path is a walk down one of the capture trees that the
    // player to move has
    fn jump_sequence_available(&self, the_move: &Vec<BoardPosition>) -> (available: bool)
        ensures
            available == exists|i: int|
                0 <= i < jump_trees(self.available_jump_moves@).len() && is_walk(
                    #[trigger] jump_trees(self.available_jump_moves@)[i],
                    the_move@,
                ),
    {
        let mut i: usize = 0;
        while i < self.available_jump_moves.len()
            invariant
                i <= self.available_jump_moves.len(),
                forall|k: int|
                    0 <= k < i ==> !is_walk(
                        #[trigger] jump_trees(self.available_jump_moves@)[k],
                        the_move@,
                    ),
            decreases self.available_jump_moves.len() - i,
        {
            if self.available_jump_moves[i].contains_jump_sequence(the_move) {
                assert(is_walk(jump_trees(self.available_jump_moves@)[i as int], the_move@));
                return true;
            }
            i += 1;
        }
        false
    }

    /// Makes a simple move for the player whose turn it is. Where the player
    /// has a capture, no simple move is made; a simple move that the player
    /// does not have is not made either. A move that is not made leaves the
    /// game as it was.
    pub fn apply_simple_move(&mut self, the_move: SimpleMove) -> (result: Result<GameState, MoveError>)
        requires
            old(self).wf(),
        ensures
            final(self).wf(),
            result == old(self)@.simple_move_result(the_move),
            old(self)@.must_jump() ==> result == Err::<GameState, MoveError>(
                MoveError::ShouldHaveJumped,
            ),
            final(self)@ == if result is Ok {
                old(self)@.after_simple_move(the_move)
            } else {
                old(self)@
            },
            result matches Ok(state) ==> state == if final(self)@.has_no_move() {
                GameState::GameOver { winner_id: old(self)@.player() }
            } else {
                GameState::InProgress
            },
    {
        assert(jump_trees(self.available_jump_moves@).len() == self.available_jump_moves@.len());
        if self.available_jump_moves.is_empty() {
            if self.simple_move_available(&the_move) {
                proof {
                    self.board.lemma_view_wf();
                    lemma_simple_move_available(
                        self@.board,
                        self@.player(),
                        self@.direction(),
                        the_move,
                    );
                    lemma_piece_simple_move(
                        self@.board,
                        self@.player(),
                        self@.direction(),
                        the_move.from_row as int,
                        the_move.from_col as int,
                        the_move,
                    );
                    let grid = self@.board;
                    let to = grid.at(the_move.to_row as int, the_move.to_col as int);
                    let from = grid.at(the_move.from_row as int, the_move.from_col as int);
                    grid.lemma_set(the_move.from_row as int, the_move.from_col as int, to);
                    grid.set(the_move.from_row as int, the_move.from_col as int, to).lemma_set(
                        the_move.to_row as int,
                        the_move.to_col as int,
                        from,
                    );
                }
                self.board.swap_tiles(
                    the_move.from_row(),
                    the_move.from_column(),
                    the_move.to_row(),
                    the_move.to_column(),
                );

                let game_state = self.finish_move(the_move.to_row(), the_move.to_column());
                Ok(game_state)
            } else {
                Err(MoveError::InvalidMove)
            }
        } else {
            Err(MoveError::ShouldHaveJumped)
        }
    }

    /// Makes the captures of a path for the player whose turn it is: the
    /// piece on the first position goes to the last, and the pieces that it
    /// passes over leave the board. The path has to make at least one
    /// capture and to be a walk down one of the capture trees that the player
    /// has; it need not end at a leaf. Any other path changes nothing.
    pub fn apply_jump_move(&mut self, the_move: Vec<BoardPosition>) -> (result: Result<
        GameState,
        MoveError,
    >)
        requires
            old(self).wf(),
        ensures
            final(self).wf(),
            result == old(self)@.jump_move_result(the_move@),
            final(self)@ == if result is Ok {
                old(self)@.after_jump_move(the_move@)
            } else {
                old(self)@
            },
            result matches Ok(state) ==> state == if final(self)@.has_no_move() {
                GameState::GameOver { winner_id: old(self)@.player() }
            } else {
                GameState::InProgress
            },
    {
        let jump_valid = the_move.len() >= 2 && self.jump_sequence_available(&the_move);
        if jump_valid {
            let ghost path = the_move@;
            let ghost grid = self@.board;
            let ghost player = self@.player();
            let start_position = the_move[0];
            let final_position = the_move[the_move.len() - 1];
            proof {
                lemma_capture_path(self@, path);
                lemma_captures_made(self@, path);
                let first = (start_position.row as int, start_position.column as int);
                let last = (final_position.row as int, final_position.column as int);
                grid.lemma_set(first.0, first.1, grid.at(last.0, last.1));
                grid.set(first.0, first.1, grid.at(last.0, last.1)).lemma_set(
                    last.0,
                    last.1,
                    grid.at(first.0, first.1),
                );
            }

            // move the jumping piece
            self.board.swap_tiles(
                start_position.row,
                start_position.column,
                final_position.row,
                final_position.column,
            );
            let ghost swapped = self@.board;
            proof {
                self.board.lemma_view_wf();
                assert(path.take(1).len() < 2);
            }

            // remove all jumped pieces
            let mut i: usize = 0;
            while i + 1 < the_move.len()
                invariant
                    i + 1 <= the_move.len(),
                    path == the_move@,
                    self.seated(),
                    self@.current == old(self)@.current,
                    grid.rows == 8,
                    grid.columns == 8,
                    self@.board == captures_removed(swapped, path.take(i + 1)),
                    forall|k: int|
                        0 <= k < path.len() - 1 ==> is_king_step(
                            grid,
                            player,
                            path[0].row as int,
                            path[0].column as int,
                            #[trigger] path[k],
                            path[k + 1],
                        ),
                decreases the_move.len() - i,
            {
                let jump_from_pos = the_move[i];
                let jump_to_pos = the_move[i + 1];
                assert(is_king_step(
                    grid,
                    player,
                    path[0].row as int,
                    path[0].column as int,
                    path[i as int],
                    path[i + 1],
                ));
                let jumped_row: usize = if jump_from_pos.row < jump_to_pos.row {
                    jump_from_pos.row + 1
                } else {
                    jump_from_pos.row - 1
                };
                let jumped_col: usize = if jump_from_pos.column < jump_to_pos.column {
                    jump_from_pos.column + 1
                } else {
                    jump_from_pos.column - 1
                };
                proof {
                    assert(path.take(i + 2).drop_last() =~= path.take(i + 1));
                    self@.board.lemma_set(jumped_row as int, jumped_col as int, None);
                }
                self.board.clear_tile(jumped_row, jumped_col);
                i += 1;
            }
            proof {
                assert(path.take(the_move.len() as int) =~= path);
            }

            let game_state = self.finish_move(final_position.row, final_position.column);
            Ok(game_state)
        } else {
            Err(MoveError::InvalidMove)
        }
    }

    /// The board of the game.
    pub fn board(&self) -> (board: &Board)
        requires
            self.wf(),
        ensures
            board.wf(),
            board@ == self@.board,
    {
        &self.board
    }

    /// The player whose turn it is.
    pub fn current_player(&self) -> (player: &Player)
        requires
            self.wf(),
        ensures
            player.id == self@.player(),
    {
        &self.current_player_info().player
    }
}

/// What a list of positions asks for: two positions one row and one column
/// apart ask for a simple move, any other list for the captures of a path.
pub open spec fn asks_simple_move(positions: Seq<BoardPosition>) -> bool {
    &&& positions.len() == 2
    &&& (positions[0].row - positions[1].row == 1 || positions[1].row - positions[0].row == 1)
    &&& (positions[0].column - positions[1].column == 1 || positions[1].column
        - positions[0].column == 1)
}

/// Makes the move that a list of positions asks for: a simple move from the
/// first position to the second where the list asks for one, the captures of
/// the path otherwise.
pub fn apply_positions_as_move(game: &mut Game, positions: Vec<BoardPosition>) -> (result: Result<
    GameState,
    MoveError,
>)
    requires
        old(game).wf(),
    ensures
        final(game).wf(),
        asks_simple_move(positions@) ==> result == old(game)@.simple_move_result(
            SimpleMove {
                from_row: positions[0].row,
                from_col: positions[0].column,
                to_row: positions[1].row,
                to_col: positions[1].column,
            },
        ) && final(game)@ == if result is Ok {
            old(game)@.after_simple_move(
                SimpleMove {
                    from_row: positions[0].row,
                    from_col: positions[0].column,
                    to_row: positions[1].row,
                    to_col: positions[1].column,
                },
            )
        } else {
            old(game)@
        },
        !asks_simple_move(positions@) ==> result == old(game)@.jump_move_result(positions@)
            && final(game)@ == if result is Ok {
            old(game)@.after_jump_move(positions@)
        } else {
            old(game)@
        },
{
    if positions.len() == 2 {
        let start = positions[0];
        let end = positions[1];

        let row_diff: usize = absolute_diff(start.row, end.row);
        let col_diff: usize = absolute_diff(start.column, end.column);

        if row_diff == 1 && col_diff == 1 {
            game.apply_simple_move(SimpleMove::new(start.row, start.column, end.row, end.column))
        } else {
            game.apply_jump_move(positions)
        }
    } else {
        game.apply_jump_move(positions)
    }
}

} // verus!
