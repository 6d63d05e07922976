use crate::ai::{
    forward, holds_enemy, is_walk, king_branch, king_can_jump, king_jump_tree, man_branch,
    man_can_jump, man_jump_tree, Direction,
};
use crate::board::{BoardPosition, Grid};
use vstd::prelude::*;

verus! {

/// The row of the square between two positions.
pub open spec fn mid_row(from: BoardPosition, to: BoardPosition) -> int {
    (from.row + to.row) / 2
}

/// The column of the square between two positions.
pub open spec fn mid_column(from: BoardPosition, to: BoardPosition) -> int {
    (from.column + to.column) / 2
}

/// The squares that the steps of a path pass over.
pub open spec fn squares_passed(path: Seq<BoardPosition>) -> Set<(int, int)> {
    Set::new(
        |square: (int, int)|
            exists|i: int|
                0 <= i < path.len() - 1 && square == (
                    mid_row(#[trigger] path[i], path[i + 1]),
                    mid_column(path[i], path[i + 1]),
                ),
    )
}

/// One capture of a man: two rows forward and two columns to one side, onto
/// a free square, over an enemy.
pub open spec fn is_man_step(
    grid: Grid,
    player: u32,
    direction: Direction,
    from: BoardPosition,
    to: BoardPosition,
) -> bool {
    &&& to.row == from.row + 2 * forward(direction)
    &&& (to.column == from.column - 2 || to.column == from.column + 2)
    &&& grid.is_free(to.row as int, to.column as int)
    &&& holds_enemy(grid, player, mid_row(from, to), mid_column(from, to))
}

/// One capture of a king that set out from the start square: two rows and
/// two columns along a diagonal, onto a square of the board that is free or
/// the start square, over an enemy.
pub open spec fn is_king_step(
    grid: Grid,
    player: u32,
    start_row: int,
    start_col: int,
    from: BoardPosition,
    to: BoardPosition,
) -> bool {
    &&& (to.row == from.row - 2 || to.row == from.row + 2)
    &&& (to.column == from.column - 2 || to.column == from.column + 2)
    &&& grid.in_bounds(to.row as int, to.column as int)
    &&& (grid.at(to.row as int, to.column as int) is None || (to.row == start_row && to.column
        == start_col))
    &&& holds_enemy(grid, player, mid_row(from, to), mid_column(from, to))
}

/// A child of a node of a man's capture tree is the tree of the man after
/// one capture to the left or to the right.
pub proof fn lemma_man_child(
    grid: Grid,
    player: u32,
    direction: Direction,
    row: int,
    col: int,
    k: int,
) -> (col_step: int)
    requires
        0 <= k < man_jump_tree(grid, player, direction, row, col).children.len(),
    ensures
        col_step == -1 || col_step == 1,
        man_can_jump(grid, player, row, col, forward(direction), col_step),
        man_jump_tree(grid, player, direction, row, col).children[k] == man_jump_tree(
            grid,
            player,
            direction,
            row + 2 * forward(direction),
            col + 2 * col_step,
        ),
{
    let left = man_branch(grid, player, direction, row, col, -1);
    let right = man_branch(grid, player, direction, row, col, 1);
    assert(man_jump_tree(grid, player, direction, row, col).children == left + right);
    if k < left.len() {
        assert((left + right)[k] == left[k]);
        -1
    } else {
        assert((left + right)[k] == right[k - left.len()]);
        1
    }
}

/// Along every walk down a man's capture tree, each step is a capture two
/// rows forward and two columns sideways: the tree never branches backward.
pub proof fn lemma_man_walk(
    grid: Grid,
    player: u32,
    direction: Direction,
    row: int,
    col: int,
    path: Seq<BoardPosition>,
)
    requires
        is_walk(man_jump_tree(grid, player, direction, row, col), path),
    ensures
        path.len() >= 1,
        path[0].row == row,
        path[0].column == col,
        forall|i: int|
            0 <= i < path.len() - 1 ==> is_man_step(
                grid,
                player,
                direction,
                #[trigger] path[i],
                path[i + 1],
            ),
    decreases path.len(),
{
    if path.len() >= 2 {
        let tree = man_jump_tree(grid, player, direction, row, col);
        let rest = path.drop_first();
        let k = choose|k: int| 0 <= k < tree.children.len() && is_walk(#[trigger] tree.children[k], rest);
        let col_step = lemma_man_child(grid, player, direction, row, col, k);
        lemma_man_walk(
            grid,
            player,
            direction,
            row + 2 * forward(direction),
            col + 2 * col_step,
            rest,
        );
        assert forall|i: int| 0 <= i < path.len() - 1 implies is_man_step(
            grid,
            player,
            direction,
            #[trigger] path[i],
            path[i + 1],
        ) by {
            if i == 0 {
                assert(path[1] == rest[0]);
            } else {
                assert(path[i] == rest[i - 1]);
                assert(path[i + 1] == rest[i]);
                assert(is_man_step(grid, player, direction, rest[i - 1], rest[i - 1 + 1]));
            }
        }
    }
}

/// A child of a node of a king's capture tree is the tree of the king after
/// one capture along one of the four diagonals, with the captured square
/// added to those captured before.
pub proof fn lemma_king_child(
    grid: Grid,
    player: u32,
    start_row: int,
    start_col: int,
    captured: Set<(int, int)>,
    row: int,
    col: int,
    k: int,
) -> (step: (int, int))
    requires
        0 <= k < king_jump_tree(grid, player, start_row, start_col, captured, row, col).children.len(),
    ensures
        step.0 == -1 || step.0 == 1,
        step.1 == -1 || step.1 == 1,
        king_can_jump(grid, player, start_row, start_col, captured, row, col, step.0, step.1),
        king_jump_tree(grid, player, start_row, start_col, captured, row, col).children[k]
            == king_jump_tree(
            grid,
            player,
            start_row,
            start_col,
            captured.insert((row + step.0, col + step.1)),
            row + 2 * step.0,
            col + 2 * step.1,
        ),
{
    let b1 = king_branch(grid, player, start_row, start_col, captured, row, col, -1, -1);
    let b2 = king_branch(grid, player, start_row, start_col, captured, row, col, -1, 1);
    let b3 = king_branch(grid, player, start_row, start_col, captured, row, col, 1, -1);
    let b4 = king_branch(grid, player, start_row, start_col, captured, row, col, 1, 1);
    let children = king_jump_tree(grid, player, start_row, start_col, captured, row, col).children;
    assert(children == b1 + b2 + b3 + b4);
    if k < b1.len() {
        assert(children[k] == b1[k]);
        (-1, -1)
    } else if k < b1.len() + b2.len() {
        assert(children[k] == b2[k - b1.len()]);
        (-1, 1)
    } else if k < b1.len() + b2.len() + b3.len() {
        assert(children[k] == b3[k - b1.len() - b2.len()]);
        (1, -1)
    } else {
        assert(children[k] == b4[k - b1.len() - b2.len() - b3.len()]);
        (1, 1)
    }
}

/// Along every walk down a king's capture tree, each step is a capture along
/// a diagonal; no step passes over a square captured before the walk began,
/// and no two steps pass over the same square. A step may land on the start
/// square again.
pub proof fn lemma_king_walk(
    grid: Grid,
    player: u32,
    start_row: int,
    start_col: int,
    captured: Set<(int, int)>,
    row: int,
    col: int,
    path: Seq<BoardPosition>,
)
    requires
        is_walk(king_jump_tree(grid, player, start_row, start_col, captured, row, col), path),
    ensures
        path.len() >= 1,
        path[0].row == row,
        path[0].column == col,
        forall|i: int|
            0 <= i < path.len() - 1 ==> is_king_step(
                grid,
                player,
                start_row,
                start_col,
                #[trigger] path[i],
                path[i + 1],
            ),
        forall|i: int|
            0 <= i < path.len() - 1 ==> !captured.contains(
                (mid_row(#[trigger] path[i], path[i + 1]), mid_column(path[i], path[i + 1])),
            ),
        forall|i: int, j: int|
            0 <= i < j < path.len() - 1 ==> (
                mid_row(#[trigger] path[i], path[i + 1]),
                mid_column(path[i], path[i + 1]),
            ) != (mid_row(#[trigger] path[j], path[j + 1]), mid_column(path[j], path[j + 1])),
    decreases path.len(),
{
    if path.len() >= 2 {
        let tree = king_jump_tree(grid, player, start_row, start_col, captured, row, col);
        let rest = path.drop_first();
        let k = choose|k: int| 0 <= k < tree.children.len() && is_walk(#[trigger] tree.children[k], rest);
        let step = lemma_king_child(grid, player, start_row, start_col, captured, row, col, k);
        let more = captured.insert((row + step.0, col + step.1));
        lemma_king_walk(
            grid,
            player,
            start_row,
            start_col,
            more,
            row + 2 * step.0,
            col + 2 * step.1,
            rest,
        );
        assert(path[1] == rest[0]);
        assert(mid_row(path[0], path[1]) == row + step.0);
        assert(mid_column(path[0], path[1]) == col + step.1);
        assert forall|i: int| 0 < i < path.len() - 1 implies #[trigger] path[i] == rest[i - 1]
            && path[i + 1] == rest[i - 1 + 1] by {
        }
        assert forall|i: int| 0 <= i < path.len() - 1 implies is_king_step(
            grid,
            player,
            start_row,
            start_col,
            #[trigger] path[i],
            path[i + 1],
        ) by {
            if i > 0 {
                assert(is_king_step(grid, player, start_row, start_col, rest[i - 1], rest[i - 1 + 1]));
            }
        }
        assert forall|i: int| 0 <= i < path.len() - 1 implies !captured.contains(
            (mid_row(#[trigger] path[i], path[i + 1]), mid_column(path[i], path[i + 1])),
        ) by {
            if i > 0 {
                assert(!more.contains(
                    (mid_row(rest[i - 1], rest[i - 1 + 1]), mid_column(rest[i - 1], rest[i - 1 + 1])),
                ));
            }
        }
        assert forall|i: int, j: int| 0 <= i < j < path.len() - 1 implies (
            mid_row(#[trigger] path[i], path[i + 1]),
            mid_column(path[i], path[i + 1]),
        ) != (mid_row(#[trigger] path[j], path[j + 1]), mid_column(path[j], path[j + 1])) by {
            assert(!more.contains(
                (mid_row(rest[j - 1], rest[j - 1 + 1]), mid_column(rest[j - 1], rest[j - 1 + 1])),
            ));
            if i > 0 {
                assert(path[i] == rest[i - 1] && path[i + 1] == rest[i - 1 + 1]);
            }
        }
    }
}

/// The position of a square.
pub open spec fn position_at(row: int, col: int) -> BoardPosition {
    BoardPosition { row: row as usize, column: col as usize }
}

/// A man's capture tree leaves no capture out: wherever a walk down the tree
/// ends, each capture that the man can make from there, to the left or to
/// the right, makes the walk one step longer.
pub proof fn lemma_man_walk_extends(
    grid: Grid,
    player: u32,
    direction: Direction,
    row: int,
    col: int,
    path: Seq<BoardPosition>,
    col_step: int,
)
    requires
        grid.wf(),
        is_walk(man_jump_tree(grid, player, direction, row, col), path),
        col_step == -1 || col_step == 1,
        man_can_jump(
            grid,
            player,
            path.last().row as int,
            path.last().column as int,
            forward(direction),
            col_step,
        ),
    ensures
        is_walk(
            man_jump_tree(grid, player, direction, row, col),
            path.push(
                position_at(
                    path.last().row + 2 * forward(direction),
                    path.last().column + 2 * col_step,
                ),
            ),
        ),
    decreases path.len(),
{
    let tree = man_jump_tree(grid, player, direction, row, col);
    let landing = position_at(
        path.last().row + 2 * forward(direction),
        path.last().column + 2 * col_step,
    );
    let longer = path.push(landing);
    let left = man_branch(grid, player, direction, row, col, -1);
    let right = man_branch(grid, player, direction, row, col, 1);
    if path.len() == 1 {
        let k = if col_step == -1 {
            0
        } else {
            left.len() as int
        };
        let branch = man_branch(grid, player, direction, row, col, col_step);
        assert(tree.children[k] == branch[0]);
        assert(longer.drop_first() =~= seq![landing]);
        assert(is_walk(tree.children[k], longer.drop_first()));
    } else {
        let rest = path.drop_first();
        let k = choose|k: int| 0 <= k < tree.children.len() && is_walk(#[trigger] tree.children[k], rest);
        let taken = lemma_man_child(grid, player, direction, row, col, k);
        assert(rest.last() == path.last());
        lemma_man_walk_extends(
            grid,
            player,
            direction,
            row + 2 * forward(direction),
            col + 2 * taken,
            rest,
            col_step,
        );
        assert(longer.drop_first() =~= rest.push(landing));
        assert(is_walk(tree.children[k], longer.drop_first()));
    }
}

/// A king's capture tree branches toward all four diagonals at every node:
/// wherever a walk down the tree ends, each capture that the king can make
/// from there over a square that the walk has not passed makes the walk one
/// step longer.
pub proof fn lemma_king_walk_extends(
    grid: Grid,
    player: u32,
    start_row: int,
    start_col: int,
    captured: Set<(int, int)>,
    row: int,
    col: int,
    path: Seq<BoardPosition>,
    row_step: int,
    col_step: int,
)
    requires
        grid.wf(),
        is_walk(king_jump_tree(grid, player, start_row, start_col, captured, row, col), path),
        row_step == -1 || row_step == 1,
        col_step == -1 || col_step == 1,
        king_can_jump(
            grid,
            player,
            start_row,
            start_col,
            captured.union(squares_passed(path)),
            path.last().row as int,
            path.last().column as int,
            row_step,
            col_step,
        ),
    ensures
        is_walk(
            king_jump_tree(grid, player, start_row, start_col, captured, row, col),
            path.push(position_at(path.last().row + 2 * row_step, path.last().column + 2 * col_step)),
        ),
    decreases path.len(),
{
    let tree = king_jump_tree(grid, player, start_row, start_col, captured, row, col);
    let landing = position_at(path.last().row + 2 * row_step, path.last().column + 2 * col_step);
    let longer = path.push(landing);
    if path.len() == 1 {
        let b1 = king_branch(grid, player, start_row, start_col, captured, row, col, -1, -1);
        let b2 = king_branch(grid, player, start_row, start_col, captured, row, col, -1, 1);
        let b3 = king_branch(grid, player, start_row, start_col, captured, row, col, 1, -1);
        let b4 = king_branch(grid, player, start_row, start_col, captured, row, col, 1, 1);
        assert(tree.children == b1 + b2 + b3 + b4);
        let k: int = if row_step == -1 && col_step == -1 {
            0
        } else if row_step == -1 {
            b1.len() as int
        } else if col_step == -1 {
            (b1.len() + b2.len()) as int
        } else {
            (b1.len() + b2.len() + b3.len()) as int
        };
        let branch = king_branch(
            grid,
            player,
            start_row,
            start_col,
            captured,
            row,
            col,
            row_step,
            col_step,
        );
        assert(!captured.union(squares_passed(path)).contains((row + row_step, col + col_step))
            ==> !captured.contains((row + row_step, col + col_step)));
        assert(branch.len() == 1);
        assert(tree.children[k] == branch[0]);
        assert(longer.drop_first() =~= seq![landing]);
        assert(is_walk(tree.children[k], longer.drop_first()));
    } else {
        let rest = path.drop_first();
        let k = choose|k: int| 0 <= k < tree.children.len() && is_walk(#[trigger] tree.children[k], rest);
        let step = lemma_king_child(grid, player, start_row, start_col, captured, row, col, k);
        let more = captured.insert((row + step.0, col + step.1));
        lemma_king_walk(
            grid,
            player,
            start_row,
            start_col,
            more,
            row + 2 * step.0,
            col + 2 * step.1,
            rest,
        );
        assert(rest.last() == path.last());
        assert(path[1] == rest[0]);
        let passed = (row + step.0, col + step.1);
        assert(passed == (mid_row(path[0], path[1]), mid_column(path[0], path[1])));
        assert forall|square: (int, int)| more.union(squares_passed(rest)).contains(
            square,
        ) implies captured.union(squares_passed(path)).contains(square) by {
            if squares_passed(rest).contains(square) {
                let i = choose|i: int|
                    0 <= i < rest.len() - 1 && square == (
                        mid_row(#[trigger] rest[i], rest[i + 1]),
                        mid_column(rest[i], rest[i + 1]),
                    );
                assert(path[i + 1] == rest[i] && path[i + 1 + 1] == rest[i + 1]);
                assert(square == (
                    mid_row(path[i + 1], path[i + 1 + 1]),
                    mid_column(path[i + 1], path[i + 1 + 1]),
                ));
            } else if square == passed {
                assert(squares_passed(path).contains(square));
            }
        }
        lemma_king_walk_extends(
            grid,
            player,
            start_row,
            start_col,
            more,
            row + 2 * step.0,
            col + 2 * step.1,
            rest,
            row_step,
            col_step,
        );
        assert(longer.drop_first() =~= rest.push(landing));
        assert(is_walk(tree.children[k], longer.drop_first()));
    }
}

} // verus!
