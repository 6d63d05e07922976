use crate::ai::{
    forward, is_walk, king_jump_tree, man_jump_tree, simple_moves_for_king, simple_moves_for_man,
    simple_step, Direction, JumpTree, SimpleMove,
};
use crate::board::{BoardPosition, Grid};
use crate::piece::{AnyPiece, KingPiece, Piece, PieceType};
use crate::walks::{
    is_king_step, is_man_step, lemma_king_walk, lemma_man_walk, mid_column, mid_row, squares_passed,
};
use vstd::prelude::*;

verus! {

/// The state of a game after a move.
#[derive(Clone, Copy, Debug, PartialEq, Eq, Structural)]
pub enum GameState {
    /// The game has not yet finished
    InProgress,
    /// The game has finished. The `u32` is the ID of the winning player.
    GameOver { winner_id: u32 },
}

/// Why a move was not made.
#[derive(Clone, Copy, Debug, PartialEq, Eq, Structural)]
pub enum MoveError {
    /// The move is not among those that the player has.
    InvalidMove,
    /// A simple move was asked for while the player has a capture to make.
    ShouldHaveJumped,
}

/// The identity of the player who moves first (index 0) and of the other
/// (index 1).
pub open spec fn player_id(index: int) -> u32 {
    if index == 0 {
        1
    } else {
        2
    }
}

/// The first player's men advance toward higher rows, the second player's
/// toward lower rows.
pub open spec fn player_direction(index: int) -> Direction {
    if index == 0 {
        Direction::IncreasingRank
    } else {
        Direction::DecreasingRank
    }
}

/// The simple moves of the piece on a square, if it is a piece of `player`;
/// none otherwise.
pub open spec fn piece_simple_moves(
    grid: Grid,
    player: u32,
    direction: Direction,
    row: int,
    col: int,
) -> Seq<SimpleMove> {
    match grid.at(row, col) {
        Some(piece) => if piece.owner() == player {
            match piece.kind() {
                PieceType::Man => simple_moves_for_man(grid, direction, row, col),
                PieceType::King => simple_moves_for_king(grid, row, col),
            }
        } else {
            Seq::empty()
        },
        None => Seq::empty(),
    }
}

/// The capture tree of the piece of `player` on a square: that of a king
/// where a king stands there, that of a man otherwise.
pub open spec fn piece_jump_tree(
    grid: Grid,
    player: u32,
    direction: Direction,
    row: int,
    col: int,
) -> JumpTree {
    if grid.at(row, col) matches Some(piece) && piece.kind() == PieceType::King {
        king_jump_tree(grid, player, row, col, Set::empty(), row, col)
    } else {
        man_jump_tree(grid, player, direction, row, col)
    }
}

/// A piece of `player` stands on the square and can capture.
pub open spec fn piece_can_capture(
    grid: Grid,
    player: u32,
    direction: Direction,
    row: int,
    col: int,
) -> bool {
    &&& grid.at(row, col) matches Some(piece) && piece.owner() == player
    &&& piece_jump_tree(grid, player, direction, row, col).children.len() > 0
}

/// The capture tree of the piece on a square, if it is a piece of `player`
/// that can capture; none otherwise.
pub open spec fn piece_jump_trees(
    grid: Grid,
    player: u32,
    direction: Direction,
    row: int,
    col: int,
) -> Seq<JumpTree> {
    if piece_can_capture(grid, player, direction, row, col) {
        seq![piece_jump_tree(grid, player, direction, row, col)]
    } else {
        Seq::empty()
    }
}

/// The simple moves of the pieces of `player` in the first `columns` squares
/// of a row, square after square.
pub open spec fn row_simple_moves(
    grid: Grid,
    player: u32,
    direction: Direction,
    row: int,
    columns: int,
) -> Seq<SimpleMove>
    decreases columns,
{
    if columns <= 0 {
        Seq::empty()
    } else {
        row_simple_moves(grid, player, direction, row, columns - 1) + piece_simple_moves(
            grid,
            player,
            direction,
            row,
            columns - 1,
        )
    }
}

/// The simple moves of the pieces of `player` in the first `rows` rows, row
/// after row.
pub open spec fn rows_simple_moves(grid: Grid, player: u32, direction: Direction, rows: int) -> Seq<
    SimpleMove,
>
    decreases rows,
{
    if rows <= 0 {
        Seq::empty()
    } else {
        rows_simple_moves(grid, player, direction, rows - 1) + row_simple_moves(
            grid,
            player,
            direction,
            rows - 1,
            grid.columns as int,
        )
    }
}

/// All simple moves of `player`: those of each of its pieces, the pieces
/// taken row after row and in each row column after column.
pub open spec fn all_simple_moves(grid: Grid, player: u32, direction: Direction) -> Seq<SimpleMove> {
    rows_simple_moves(grid, player, direction, grid.rows as int)
}

/// The capture trees of the pieces of `player` in the first `columns`
/// squares of a row, square after square.
pub open spec fn row_jump_trees(
    grid: Grid,
    player: u32,
    direction: Direction,
    row: int,
    columns: int,
) -> Seq<JumpTree>
    decreases columns,
{
    if columns <= 0 {
        Seq::empty()
    } else {
        row_jump_trees(grid, player, direction, row, columns - 1) + piece_jump_trees(
            grid,
            player,
            direction,
            row,
            columns - 1,
        )
    }
}

/// The capture trees of the pieces of `player` in the first `rows` rows, row
/// after row.
pub open spec fn rows_jump_trees(grid: Grid, player: u32, direction: Direction, rows: int) -> Seq<
    JumpTree,
>
    decreases rows,
{
    if rows <= 0 {
        Seq::empty()
    } else {
        rows_jump_trees(grid, player, direction, rows - 1) + row_jump_trees(
            grid,
            player,
            direction,
            rows - 1,
            grid.columns as int,
        )
    }
}

/// All capture trees of `player`: one for each of its pieces that can
/// capture, the pieces taken row after row and in each row column after
/// column.
pub open spec fn all_jump_trees(grid: Grid, player: u32, direction: Direction) -> Seq<JumpTree> {
    rows_jump_trees(grid, player, direction, grid.rows as int)
}

proof fn lemma_concat_contains<A>(first: Seq<A>, second: Seq<A>, element: A)
    ensures
        (first + second).contains(element) <==> first.contains(element) || second.contains(element),
{
    let both = first + second;
    if first.contains(element) {
        let i = choose|i: int| 0 <= i < first.len() && first[i] == element;
        assert(both[i] == element);
    }
    if second.contains(element) {
        let i = choose|i: int| 0 <= i < second.len() && second[i] == element;
        assert(both[first.len() + i] == element);
    }
    if both.contains(element) {
        let i = choose|i: int| 0 <= i < both.len() && both[i] == element;
        if i < first.len() {
            assert(first[i] == element);
        } else {
            assert(second[i - first.len()] == element);
        }
    }
}

proof fn lemma_row_simple_moves(
    grid: Grid,
    player: u32,
    direction: Direction,
    row: int,
    columns: int,
    the_move: SimpleMove,
)
    ensures
        row_simple_moves(grid, player, direction, row, columns).contains(the_move) <==> exists|
            c: int,
        |
            0 <= c < columns && (#[trigger] piece_simple_moves(
                grid,
                player,
                direction,
                row,
                c,
            )).contains(the_move),
    decreases columns,
{
    if columns > 0 {
        lemma_row_simple_moves(grid, player, direction, row, columns - 1, the_move);
        lemma_concat_contains(
            row_simple_moves(grid, player, direction, row, columns - 1),
            piece_simple_moves(grid, player, direction, row, columns - 1),
            the_move,
        );
    }
}

proof fn lemma_rows_simple_moves(
    grid: Grid,
    player: u32,
    direction: Direction,
    rows: int,
    the_move: SimpleMove,
)
    ensures
        rows_simple_moves(grid, player, direction, rows).contains(the_move) <==> exists|
            r: int,
            c: int,
        |
            0 <= r < rows && 0 <= c < grid.columns && (#[trigger] piece_simple_moves(
                grid,
                player,
                direction,
                r,
                c,
            )).contains(the_move),
    decreases rows,
{
    if rows > 0 {
        lemma_rows_simple_moves(grid, player, direction, rows - 1, the_move);
        lemma_row_simple_moves(grid, player, direction, rows - 1, grid.columns as int, the_move);
        lemma_concat_contains(
            rows_simple_moves(grid, player, direction, rows - 1),
            row_simple_moves(grid, player, direction, rows - 1, grid.columns as int),
            the_move,
        );
    }
}

/// The move that a simple step makes, if it makes one.
proof fn lemma_step_contains(
    grid: Grid,
    row: int,
    col: int,
    row_step: int,
    col_step: int,
    the_move: SimpleMove,
)
    ensures
        simple_step(grid, row, col, row_step, col_step).contains(the_move) <==> grid.is_free(
            row + row_step,
            col + col_step,
        ) && the_move == (SimpleMove {
            from_row: row as usize,
            from_col: col as usize,
            to_row: (row + row_step) as usize,
            to_col: (col + col_step) as usize,
        }),
{
    let step = simple_step(grid, row, col, row_step, col_step);
    if grid.is_free(row + row_step, col + col_step) {
        assert(step.len() == 1);
        if step.contains(the_move) {
            let i = choose|i: int| 0 <= i < step.len() && step[i] == the_move;
            assert(i == 0);
        } else {
            assert(step[0] != the_move);
        }
    } else {
        assert(step.len() == 0);
    }
}

/// Every simple move of the piece on a square starts from that square and
/// leads one row and one column away, to a free square of the board; that of
/// a man leads one row forward.
pub proof fn lemma_piece_simple_move(
    grid: Grid,
    player: u32,
    direction: Direction,
    row: int,
    col: int,
    the_move: SimpleMove,
)
    requires
        grid.wf(),
        piece_simple_moves(grid, player, direction, row, col).contains(the_move),
    ensures
        grid.at(row, col) matches Some(piece) && piece.owner() == player && (piece.kind()
            == PieceType::Man ==> the_move.to_row == row + forward(direction)),
        the_move.from_row == row,
        the_move.from_col == col,
        the_move.to_row == row - 1 || the_move.to_row == row + 1,
        the_move.to_col == col - 1 || the_move.to_col == col + 1,
        grid.is_free(the_move.to_row as int, the_move.to_col as int),
{
    let piece = grid.at(row, col).unwrap();
    match piece.kind() {
        PieceType::Man => {
            let left = simple_step(grid, row, col, forward(direction), -1);
            let right = simple_step(grid, row, col, forward(direction), 1);
            lemma_concat_contains(left, right, the_move);
            lemma_step_contains(grid, row, col, forward(direction), -1, the_move);
            lemma_step_contains(grid, row, col, forward(direction), 1, the_move);
        },
        PieceType::King => {
            let s1 = simple_step(grid, row, col, -1, -1);
            let s2 = simple_step(grid, row, col, -1, 1);
            let s3 = simple_step(grid, row, col, 1, -1);
            let s4 = simple_step(grid, row, col, 1, 1);
            lemma_concat_contains(s1 + s2 + s3, s4, the_move);
            lemma_concat_contains(s1 + s2, s3, the_move);
            lemma_concat_contains(s1, s2, the_move);
            lemma_step_contains(grid, row, col, -1, -1, the_move);
            lemma_step_contains(grid, row, col, -1, 1, the_move);
            lemma_step_contains(grid, row, col, 1, -1, the_move);
            lemma_step_contains(grid, row, col, 1, 1, the_move);
        },
    }
}

/// A simple move is among those of a player exactly if a piece of the player
/// stands on the square that it starts from, and it is one of the simple
/// moves of that piece.
pub proof fn lemma_simple_move_available(
    grid: Grid,
    player: u32,
    direction: Direction,
    the_move: SimpleMove,
)
    requires
        grid.wf(),
    ensures
        all_simple_moves(grid, player, direction).contains(the_move) <==> piece_simple_moves(
            grid,
            player,
            direction,
            the_move.from_row as int,
            the_move.from_col as int,
        ).contains(the_move),
{
    lemma_rows_simple_moves(grid, player, direction, grid.rows as int, the_move);
    if all_simple_moves(grid, player, direction).contains(the_move) {
        let (r, c) = choose|r: int, c: int|
            0 <= r < grid.rows && 0 <= c < grid.columns && (#[trigger] piece_simple_moves(
                grid,
                player,
                direction,
                r,
                c,
            )).contains(the_move);
        lemma_piece_simple_move(grid, player, direction, r, c, the_move);
    }
    let from_row = the_move.from_row as int;
    let from_col = the_move.from_col as int;
    if piece_simple_moves(grid, player, direction, from_row, from_col).contains(the_move) {
        lemma_piece_simple_move(grid, player, direction, from_row, from_col, the_move);
        assert(grid.in_bounds(from_row, from_col));
    }
}

proof fn lemma_row_jump_trees(
    grid: Grid,
    player: u32,
    direction: Direction,
    row: int,
    columns: int,
    tree: JumpTree,
)
    ensures
        row_jump_trees(grid, player, direction, row, columns).contains(tree) <==> exists|c: int|
            0 <= c < columns && (#[trigger] piece_jump_trees(grid, player, direction, row, c)).contains(
                tree,
            ),
    decreases columns,
{
    if columns > 0 {
        lemma_row_jump_trees(grid, player, direction, row, columns - 1, tree);
        lemma_concat_contains(
            row_jump_trees(grid, player, direction, row, columns - 1),
            piece_jump_trees(grid, player, direction, row, columns - 1),
            tree,
        );
    }
}

proof fn lemma_rows_jump_trees(
    grid: Grid,
    player: u32,
    direction: Direction,
    rows: int,
    tree: JumpTree,
)
    ensures
        rows_jump_trees(grid, player, direction, rows).contains(tree) <==> exists|r: int, c: int|
            0 <= r < rows && 0 <= c < grid.columns && (#[trigger] piece_jump_trees(
                grid,
                player,
                direction,
                r,
                c,
            )).contains(tree),
    decreases rows,
{
    if rows > 0 {
        lemma_rows_jump_trees(grid, player, direction, rows - 1, tree);
        lemma_row_jump_trees(grid, player, direction, rows - 1, grid.columns as int, tree);
        lemma_concat_contains(
            rows_jump_trees(grid, player, direction, rows - 1),
            row_jump_trees(grid, player, direction, rows - 1, grid.columns as int),
            tree,
        );
    }
}

/// A tree is among the capture trees of a player exactly if it is the
/// capture tree of a piece of the player that can capture.
pub proof fn lemma_jump_tree_available(grid: Grid, player: u32, direction: Direction, tree: JumpTree)
    ensures
        all_jump_trees(grid, player, direction).contains(tree) <==> exists|r: int, c: int|
            #[trigger] piece_can_capture(grid, player, direction, r, c) && tree == piece_jump_tree(
                grid,
                player,
                direction,
                r,
                c,
            ),
{
    lemma_rows_jump_trees(grid, player, direction, grid.rows as int, tree);
    if all_jump_trees(grid, player, direction).contains(tree) {
        let (r, c) = choose|r: int, c: int|
            0 <= r < grid.rows && 0 <= c < grid.columns && (#[trigger] piece_jump_trees(
                grid,
                player,
                direction,
                r,
                c,
            )).contains(tree);
        let trees = piece_jump_trees(grid, player, direction, r, c);
        let i = choose|i: int| 0 <= i < trees.len() && trees[i] == tree;
        assert(piece_can_capture(grid, player, direction, r, c));
    }
    if exists|r: int, c: int|
        #[trigger] piece_can_capture(grid, player, direction, r, c) && tree == piece_jump_tree(
            grid,
            player,
            direction,
            r,
            c,
        ) {
        let (r, c) = choose|r: int, c: int|
            #[trigger] piece_can_capture(grid, player, direction, r, c) && tree == piece_jump_tree(
                grid,
                player,
                direction,
                r,
                c,
            );
        assert(grid.in_bounds(r, c));
        assert(piece_jump_trees(grid, player, direction, r, c)[0] == tree);
    }
}

/// A player has to capture exactly if one of its pieces can capture.
pub proof fn lemma_must_jump(grid: Grid, player: u32, direction: Direction)
    ensures
        all_jump_trees(grid, player, direction).len() > 0 <==> exists|r: int, c: int|
            #[trigger] piece_can_capture(grid, player, direction, r, c),
{
    let trees = all_jump_trees(grid, player, direction);
    if trees.len() > 0 {
        assert(trees.contains(trees[0]));
        lemma_jump_tree_available(grid, player, direction, trees[0]);
    }
    if exists|r: int, c: int| #[trigger] piece_can_capture(grid, player, direction, r, c) {
        let (r, c) = choose|r: int, c: int| #[trigger] piece_can_capture(grid, player, direction, r, c);
        let tree = piece_jump_tree(grid, player, direction, r, c);
        lemma_jump_tree_available(grid, player, direction, tree);
        assert(trees.contains(tree));
    }
}

/// The row is the last one for a man that moves in the direction.
pub open spec fn is_last_rank(grid: Grid, direction: Direction, row: int) -> bool {
    match direction {
        Direction::IncreasingRank => row + 1 == grid.rows,
        Direction::DecreasingRank => row == 0,
    }
}

/// A piece as it is after a ply has brought it to a row: a man on the last
/// rank of its direction has become a king of the same owner; a king stays a
/// king, and a man on any other row stays a man.
pub open spec fn promoted(piece: AnyPiece, grid: Grid, direction: Direction, row: int) -> AnyPiece {
    if piece.kind() == PieceType::Man && is_last_rank(grid, direction, row) {
        AnyPiece::King(KingPiece { player_id: piece.owner() })
    } else {
        piece
    }
}

/// Promotion keeps the owner. A man that has come to its last rank is a
/// king; a king that makes the same move stays the king it was, and a man on
/// any other row stays the man it was.
pub proof fn lemma_promoted(piece: AnyPiece, grid: Grid, direction: Direction, row: int)
    ensures
        promoted(piece, grid, direction, row).owner() == piece.owner(),
        piece.kind() == PieceType::Man && is_last_rank(grid, direction, row) ==> promoted(
            piece,
            grid,
            direction,
            row,
        ).kind() == PieceType::King,
        piece.kind() == PieceType::King ==> promoted(piece, grid, direction, row) == piece,
        !is_last_rank(grid, direction, row) ==> promoted(piece, grid, direction, row) == piece,
{
}

/// The board after the piece on a square has been looked at for promotion: a
/// man on the last rank of its direction is replaced by a king of the same
/// owner; anything else stays.
pub open spec fn crowned(grid: Grid, direction: Direction, row: int, col: int) -> Grid {
    match grid.at(row, col) {
        Some(piece) => if piece.kind() == PieceType::Man && is_last_rank(grid, direction, row) {
            grid.set(row, col, Some(promoted(piece, grid, direction, row)))
        } else {
            grid
        },
        None => grid,
    }
}

/// Promotion touches one square only: the piece there is as `promoted` says,
/// and every other square is as it was.
pub proof fn lemma_crowned(grid: Grid, direction: Direction, row: int, col: int)
    requires
        grid.wf(),
    ensures
        crowned(grid, direction, row, col).wf(),
        crowned(grid, direction, row, col).rows == grid.rows,
        crowned(grid, direction, row, col).columns == grid.columns,
        forall|r: int, c: int|
            #[trigger] crowned(grid, direction, row, col).at(r, c) == if r == row && c == col {
                match grid.at(row, col) {
                    Some(piece) => Some(promoted(piece, grid, direction, row)),
                    None => None,
                }
            } else {
                grid.at(r, c)
            },
{
    match grid.at(row, col) {
        Some(piece) => {
            grid.lemma_set(row, col, Some(promoted(piece, grid, direction, row)));
        },
        None => {},
    }
}

/// The board with the square between each two consecutive positions of the
/// path emptied.
pub open spec fn captures_removed(grid: Grid, path: Seq<BoardPosition>) -> Grid
    decreases path.len(),
{
    if path.len() < 2 {
        grid
    } else {
        captures_removed(grid, path.drop_last()).set(
            mid_row(path[path.len() - 2], path[path.len() - 1]),
            mid_column(path[path.len() - 2], path[path.len() - 1]),
            None,
        )
    }
}

/// Emptying the squares passed over empties those squares of the board and
/// changes no other.
pub proof fn lemma_captures_removed(grid: Grid, path: Seq<BoardPosition>)
    requires
        grid.wf(),
    ensures
        captures_removed(grid, path).wf(),
        captures_removed(grid, path).rows == grid.rows,
        captures_removed(grid, path).columns == grid.columns,
        forall|r: int, c: int|
            #[trigger] captures_removed(grid, path).at(r, c) == if squares_passed(path).contains(
                (r, c),
            ) {
                None
            } else {
                grid.at(r, c)
            },
    decreases path.len(),
{
    if path.len() >= 2 {
        let shorter = path.drop_last();
        let from = path[path.len() - 2];
        let to = path[path.len() - 1];
        let passed = (mid_row(from, to), mid_column(from, to));
        lemma_captures_removed(grid, shorter);
        captures_removed(grid, shorter).lemma_set(passed.0, passed.1, None);
        assert forall|r: int, c: int|
            squares_passed(path).contains((r, c)) <==> squares_passed(shorter).contains((r, c)) || (
                r,
                c,
            ) == passed by {
            if squares_passed(shorter).contains((r, c)) {
                let i = choose|i: int|
                    0 <= i < shorter.len() - 1 && (r, c) == (
                        mid_row(#[trigger] shorter[i], shorter[i + 1]),
                        mid_column(shorter[i], shorter[i + 1]),
                    );
                assert((r, c) == (mid_row(path[i], path[i + 1]), mid_column(path[i], path[i + 1])));
            }
            if (r, c) == passed {
                let i = path.len() - 2;
                assert((r, c) == (mid_row(path[i], path[i + 1]), mid_column(path[i], path[i + 1])));
            }
            if squares_passed(path).contains((r, c)) {
                let i = choose|i: int|
                    0 <= i < path.len() - 1 && (r, c) == (
                        mid_row(#[trigger] path[i], path[i + 1]),
                        mid_column(path[i], path[i + 1]),
                    );
                if i < path.len() - 2 {
                    assert((r, c) == (
                        mid_row(shorter[i], shorter[i + 1]),
                        mid_column(shorter[i], shorter[i + 1]),
                    ));
                }
            }
        }
    } else {
        assert forall|r: int, c: int| !squares_passed(path).contains((r, c)) by {
        }
    }
}

/// Along every walk down the capture tree of a piece, each step is a
/// capture along a diagonal over an enemy, onto a square of the board that
/// is free or the square of the piece itself.
pub proof fn lemma_piece_walk(
    grid: Grid,
    player: u32,
    direction: Direction,
    row: int,
    col: int,
    path: Seq<BoardPosition>,
)
    requires
        is_walk(piece_jump_tree(grid, player, direction, row, col), path),
    ensures
        path.len() >= 1,
        path[0].row == row,
        path[0].column == col,
        forall|i: int|
            0 <= i < path.len() - 1 ==> is_king_step(
                grid,
                player,
                row,
                col,
                #[trigger] path[i],
                path[i + 1],
            ),
{
    if grid.at(row, col) matches Some(piece) && piece.kind() == PieceType::King {
        lemma_king_walk(grid, player, row, col, Set::empty(), row, col, path);
    } else {
        lemma_man_walk(grid, player, direction, row, col, path);
        assert forall|i: int| 0 <= i < path.len() - 1 implies is_king_step(
            grid,
            player,
            row,
            col,
            #[trigger] path[i],
            path[i + 1],
        ) by {
            assert(is_man_step(grid, player, direction, path[i], path[i + 1]));
        }
    }
}

/// Every piece on the board is one of player 1 or of player 2.
pub open spec fn two_players_only(grid: Grid) -> bool {
    forall|row: int, col: int|
        (#[trigger] grid.at(row, col)) matches Some(piece) ==> piece.owner() == player_id(0)
            || piece.owner() == player_id(1)
}

/// A game as a mathematical value: the board, and the index of the player
/// whose turn it is.
pub struct GameView {
    pub board: Grid,
    pub current: int,
}

impl GameView {
    /// What holds of every game: the board is well formed, 8 by 8, and holds
    /// pieces of the two players only; the first or the second player is to
    /// move.
    pub open spec fn wf(self) -> bool {
        &&& self.board.wf()
        &&& self.board.rows == 8
        &&& self.board.columns == 8
        &&& two_players_only(self.board)
        &&& (self.current == 0 || self.current == 1)
    }

    /// The identity of the player whose turn it is.
    pub open spec fn player(self) -> u32 {
        player_id(self.current)
    }

    /// The direction of the player whose turn it is.
    pub open spec fn direction(self) -> Direction {
        player_direction(self.current)
    }

    /// The simple moves that the player to move has.
    pub open spec fn simple_moves(self) -> Seq<SimpleMove> {
        all_simple_moves(self.board, self.player(), self.direction())
    }

    /// The capture trees that the player to move has, each with at least one
    /// capture.
    pub open spec fn jump_trees(self) -> Seq<JumpTree> {
        all_jump_trees(self.board, self.player(), self.direction())
    }

    /// The player to move has a capture, and so has to capture.
    pub open spec fn must_jump(self) -> bool {
        self.jump_trees().len() > 0
    }

    /// The player to move has neither a simple move nor a capture.
    pub open spec fn has_no_move(self) -> bool {
        self.simple_moves().len() == 0 && self.jump_trees().len() == 0
    }

    /// The path makes at least one capture and is a walk down one of the
    /// capture trees of the player to move. It need not end at a leaf.
    pub open spec fn is_capture_path(self, path: Seq<BoardPosition>) -> bool {
        &&& path.len() >= 2
        &&& exists|i: int|
            0 <= i < self.jump_trees().len() && is_walk(#[trigger] self.jump_trees()[i], path)
    }

    /// The game after the player to move has brought a piece to a square of
    /// the board `moved`: the piece is looked at for promotion, and the turn
    /// passes to the other player.
    pub open spec fn after_ply(self, moved: Grid, row: int, col: int) -> GameView {
        GameView { board: crowned(moved, self.direction(), row, col), current: 1 - self.current }
    }

    /// The state that a ply leaves, `next` being the game after it: where the
    /// player who is then to move has no move, the game is over and the
    /// player who made the ply has won.
    pub open spec fn state_after(self, next: GameView) -> GameState {
        if next.has_no_move() {
            GameState::GameOver { winner_id: self.player() }
        } else {
            GameState::InProgress
        }
    }

    /// The game after a simple move: the two tiles are exchanged.
    pub open spec fn after_simple_move(self, the_move: SimpleMove) -> GameView {
        self.after_ply(
            self.board.swap(
                the_move.from_row as int,
                the_move.from_col as int,
                the_move.to_row as int,
                the_move.to_col as int,
            ),
            the_move.to_row as int,
            the_move.to_col as int,
        )
    }

    /// The game after the captures of a path: the tile of the first position
    /// is exchanged with that of the last, and the squares passed over are
    /// emptied.
    pub open spec fn after_jump_move(self, path: Seq<BoardPosition>) -> GameView {
        self.after_ply(
            captures_removed(
                self.board.swap(
                    path.first().row as int,
                    path.first().column as int,
                    path.last().row as int,
                    path.last().column as int,
                ),
                path,
            ),
            path.last().row as int,
            path.last().column as int,
        )
    }

    /// What asking for a simple move gives: a capture, where there is one,
    /// comes first; then the move has to be one that the player has.
    pub open spec fn simple_move_result(self, the_move: SimpleMove) -> Result<GameState, MoveError> {
        if self.must_jump() {
            Err(MoveError::ShouldHaveJumped)
        } else if !self.simple_moves().contains(the_move) {
            Err(MoveError::InvalidMove)
        } else {
            Ok(self.state_after(self.after_simple_move(the_move)))
        }
    }

    /// What asking for the captures of a path gives.
    pub open spec fn jump_move_result(self, path: Seq<BoardPosition>) -> Result<GameState, MoveError> {
        if !self.is_capture_path(path) {
            Err(MoveError::InvalidMove)
        } else {
            Ok(self.state_after(self.after_jump_move(path)))
        }
    }
}

} // verus!
