use crate::ai::{holds_enemy, is_walk, SimpleMove};
use crate::board::BoardPosition;
use crate::piece::Piece;
use crate::rules::{
    captures_removed, lemma_captures_removed, lemma_crowned, lemma_jump_tree_available,
    lemma_piece_simple_move, lemma_piece_walk, lemma_simple_move_available, piece_can_capture,
    piece_jump_tree, player_id, promoted, GameState, GameView,
};
use crate::walks::{is_king_step, mid_column, mid_row, squares_passed};
use vstd::prelude::*;

verus! {

/// A path of captures that the player to move can make starts on a piece of
/// that player, and each of its steps is a capture along a diagonal over an
/// enemy, onto a square of the board that is free or the square that the
/// path starts from.
pub proof fn lemma_capture_path(game: GameView, path: Seq<BoardPosition>)
    requires
        game.is_capture_path(path),
    ensures
        game.board.at(path[0].row as int, path[0].column as int) matches Some(piece)
            && piece.owner() == game.player(),
        forall|i: int|
            0 <= i < path.len() - 1 ==> is_king_step(
                game.board,
                game.player(),
                path[0].row as int,
                path[0].column as int,
                #[trigger] path[i],
                path[i + 1],
            ),
{
    let trees = game.jump_trees();
    let i = choose|i: int| 0 <= i < trees.len() && is_walk(#[trigger] trees[i], path);
    assert(trees.contains(trees[i]));
    lemma_jump_tree_available(game.board, game.player(), game.direction(), trees[i]);
    let (r, c) = choose|r: int, c: int|
        #[trigger] piece_can_capture(game.board, game.player(), game.direction(), r, c) && trees[i]
            == piece_jump_tree(game.board, game.player(), game.direction(), r, c);
    lemma_piece_walk(game.board, game.player(), game.direction(), r, c, path);
}

/// What the captures of a path do to the board, before promotion: the
/// piece that captures leaves the first square and stands on the last,
/// unchanged; every square passed over is empty; every other square is as it
/// was.
pub proof fn lemma_captures_made(game: GameView, path: Seq<BoardPosition>)
    requires
        game.board.wf(),
        game.is_capture_path(path),
    ensures
        ({
            let first = path.first();
            let last = path.last();
            let moved = captures_removed(
                game.board.swap(
                    first.row as int,
                    first.column as int,
                    last.row as int,
                    last.column as int,
                ),
                path,
            );
            &&& moved.wf()
            &&& moved.rows == game.board.rows
            &&& moved.columns == game.board.columns
            &&& game.board.in_bounds(last.row as int, last.column as int)
            &&& moved.at(last.row as int, last.column as int) == game.board.at(
                first.row as int,
                first.column as int,
            )
            &&& first != last ==> moved.at(first.row as int, first.column as int) is None
            &&& forall|r: int, c: int|
                squares_passed(path).contains((r, c)) ==> game.board.at(r, c) is Some
                    && #[trigger] moved.at(r, c) is None
            &&& forall|r: int, c: int|
                !squares_passed(path).contains((r, c)) && (r, c) != (
                    first.row as int,
                    first.column as int,
                ) && (r, c) != (last.row as int, last.column as int) ==> #[trigger] moved.at(r, c)
                    == game.board.at(r, c)
        }),
{
    let grid = game.board;
    let first = path.first();
    let last = path.last();
    let swapped = grid.swap(first.row as int, first.column as int, last.row as int, last.column as int);
    lemma_capture_path(game, path);
    grid.lemma_set(first.row as int, first.column as int, grid.at(last.row as int, last.column as int));
    grid.set(
        first.row as int,
        first.column as int,
        grid.at(last.row as int, last.column as int),
    ).lemma_set(last.row as int, last.column as int, grid.at(first.row as int, first.column as int));
    lemma_captures_removed(swapped, path);
    let before_last = path[path.len() - 2];
    assert(is_king_step(
        grid,
        game.player(),
        first.row as int,
        first.column as int,
        before_last,
        path[path.len() - 2 + 1],
    ));
    assert forall|r: int, c: int| squares_passed(path).contains((r, c)) implies holds_enemy(
        grid,
        game.player(),
        r,
        c,
    ) by {
        let i = choose|i: int|
            0 <= i < path.len() - 1 && (r, c) == (
                mid_row(#[trigger] path[i], path[i + 1]),
                mid_column(path[i], path[i + 1]),
            );
        assert(is_king_step(
            grid,
            game.player(),
            first.row as int,
            first.column as int,
            path[i],
            path[i + 1],
        ));
    }
}

/// What a simple move that is made does to the board: the piece, one of
/// the player to move, leaves its square and stands on the square that the
/// move leads to; there a man that has reached its last rank is a king of the
/// same owner, and any other piece is as it was. No other square changes.
pub proof fn lemma_simple_move_made(game: GameView, the_move: SimpleMove)
    requires
        game.board.wf(),
        game.simple_move_result(the_move) is Ok,
    ensures
        ({
            let after = game.after_simple_move(the_move).board;
            let from = (the_move.from_row as int, the_move.from_col as int);
            let to = (the_move.to_row as int, the_move.to_col as int);
            &&& after.wf()
            &&& after.rows == game.board.rows
            &&& after.columns == game.board.columns
            &&& game.board.at(from.0, from.1) matches Some(piece) && piece.owner() == game.player()
                && after.at(to.0, to.1) == Some(
                promoted(piece, game.board, game.direction(), to.0),
            )
            &&& game.board.is_free(to.0, to.1)
            &&& after.at(from.0, from.1) is None
            &&& forall|r: int, c: int|
                (r, c) != from && (r, c) != to ==> #[trigger] after.at(r, c) == game.board.at(r, c)
        }),
{
    let grid = game.board;
    let from = (the_move.from_row as int, the_move.from_col as int);
    let to = (the_move.to_row as int, the_move.to_col as int);
    lemma_simple_move_available(grid, game.player(), game.direction(), the_move);
    lemma_piece_simple_move(grid, game.player(), game.direction(), from.0, from.1, the_move);
    grid.lemma_set(from.0, from.1, grid.at(to.0, to.1));
    grid.set(from.0, from.1, grid.at(to.0, to.1)).lemma_set(to.0, to.1, grid.at(from.0, from.1));
    lemma_crowned(grid.swap(from.0, from.1, to.0, to.1), game.direction(), to.0, to.1);
}

/// What the captures of a path that is made do to the board: the piece
/// that captures, one of the player to move, stands on the last square of
/// the path, and on no other; there a man that has reached its last rank is
/// a king of the same owner, and any other piece is as it was. Every square
/// passed over held an enemy and is empty. No other square changes.
pub proof fn lemma_jump_move_made(game: GameView, path: Seq<BoardPosition>)
    requires
        game.board.wf(),
        game.is_capture_path(path),
    ensures
        ({
            let after = game.after_jump_move(path).board;
            let first = (path.first().row as int, path.first().column as int);
            let last = (path.last().row as int, path.last().column as int);
            &&& after.wf()
            &&& after.rows == game.board.rows
            &&& after.columns == game.board.columns
            &&& game.board.at(first.0, first.1) matches Some(piece) && piece.owner()
                == game.player() && after.at(last.0, last.1) == Some(
                promoted(piece, game.board, game.direction(), last.0),
            )
            &&& first != last ==> after.at(first.0, first.1) is None
            &&& forall|r: int, c: int|
                squares_passed(path).contains((r, c)) ==> holds_enemy(
                    game.board,
                    game.player(),
                    r,
                    c,
                ) && #[trigger] after.at(r, c) is None
            &&& forall|r: int, c: int|
                !squares_passed(path).contains((r, c)) && (r, c) != first && (r, c) != last
                    ==> #[trigger] after.at(r, c) == game.board.at(r, c)
        }),
{
    let grid = game.board;
    let first = (path.first().row as int, path.first().column as int);
    let last = (path.last().row as int, path.last().column as int);
    let moved = captures_removed(grid.swap(first.0, first.1, last.0, last.1), path);
    lemma_capture_path(game, path);
    lemma_captures_made(game, path);
    lemma_crowned(moved, game.direction(), last.0, last.1);
    assert forall|r: int, c: int| squares_passed(path).contains((r, c)) implies holds_enemy(
        grid,
        game.player(),
        r,
        c,
    ) by {
        let i = choose|i: int|
            0 <= i < path.len() - 1 && (r, c) == (
                mid_row(#[trigger] path[i], path[i + 1]),
                mid_column(path[i], path[i + 1]),
            );
        assert(is_king_step(grid, game.player(), first.0, first.1, path[i], path[i + 1]));
    }
}

/// A ply ends the game exactly if it leaves the player who is then to move
/// with no simple move and no capture; the winner is then the other player,
/// the one who made the ply.
pub proof fn lemma_game_over(game: GameView, next: GameView)
    requires
        game.current == 0 || game.current == 1,
        next.current == 1 - game.current,
    ensures
        next.has_no_move() ==> game.state_after(next) == (GameState::GameOver {
            winner_id: game.player(),
        }),
        !next.has_no_move() ==> game.state_after(next) == GameState::InProgress,
        game.player() != next.player(),
{
}

/// A move that is made leaves a game a game: the board keeps its size and
/// holds pieces of the two players only, and the other player is to move.
pub proof fn lemma_moves_keep_wf(game: GameView, the_move: SimpleMove, path: Seq<BoardPosition>)
    requires
        game.wf(),
    ensures
        game.simple_move_result(the_move) is Ok ==> game.after_simple_move(the_move).wf(),
        game.jump_move_result(path) is Ok ==> game.after_jump_move(path).wf(),
{
    if game.simple_move_result(the_move) is Ok {
        lemma_simple_move_made(game, the_move);
        let after = game.after_simple_move(the_move).board;
        assert forall|r: int, c: int|
            (#[trigger] after.at(r, c)) matches Some(piece) ==> piece.owner() == player_id(0)
                || piece.owner() == player_id(1) by {
            if (r, c) != (the_move.from_row as int, the_move.from_col as int) && (r, c) != (
                the_move.to_row as int,
                the_move.to_col as int,
            ) {
                assert(after.at(r, c) == game.board.at(r, c));
            }
        }
    }
    if game.jump_move_result(path) is Ok {
        lemma_jump_move_made(game, path);
        let after = game.after_jump_move(path).board;
        let first = (path.first().row as int, path.first().column as int);
        let last = (path.last().row as int, path.last().column as int);
        assert forall|r: int, c: int|
            (#[trigger] after.at(r, c)) matches Some(piece) ==> piece.owner() == player_id(0)
                || piece.owner() == player_id(1) by {
            if !squares_passed(path).contains((r, c)) && (r, c) != first && (r, c) != last {
                assert(after.at(r, c) == game.board.at(r, c));
            }
        }
    }
}

} // verus!
