use crate::board::{Board, BoardPosition, Grid};
use crate::piece::Piece;
use crate::player::Player;
use crate::tile::Tile;
use vstd::prelude::*;

verus! {

/// The way a player's men advance across the board.
#[derive(Clone, Copy, Debug, PartialEq, Eq, Structural)]
pub enum Direction {
    /// The piece is moving such that its rank is increasing
    IncreasingRank,
    /// The piece is moving such that its rank is decreasing
    DecreasingRank,
}

/// The change of row that one forward step makes.
pub open spec fn forward(direction: Direction) -> int {
    match direction {
        Direction::IncreasingRank => 1,
        Direction::DecreasingRank => -1,
    }
}

/// A move from one tile to an adjacent diagonal one
#[derive(Clone, Copy, Debug, PartialEq, Eq, Structural)]
pub struct SimpleMove {
    pub from_row: usize,
    pub from_col: usize,
    pub to_row: usize,
    pub to_col: usize,
}

impl SimpleMove {
    pub fn new(from_row: usize, from_column: usize, to_row: usize, to_column: usize) -> (the_move:
        SimpleMove)
        ensures
            the_move == (SimpleMove {
                from_row,
                from_col: from_column,
                to_row,
                to_col: to_column,
            }),
    {
        SimpleMove { from_row, from_col: from_column, to_row, to_col: to_column }
    }

    pub fn from_row(&self) -> (row: usize)
        ensures
            row == self.from_row,
    {
        self.from_row
    }

    pub fn from_column(&self) -> (column: usize)
        ensures
            column == self.from_col,
    {
        self.from_col
    }

    pub fn to_row(&self) -> (row: usize)
        ensures
            row == self.to_row,
    {
        self.to_row
    }

    pub fn to_column(&self) -> (column: usize)
        ensures
            column == self.to_col,
    {
        self.to_col
    }
}

/// The simple move from a square by the given steps, if the square it leads
/// to is on the board and free; nothing otherwise.
pub open spec fn simple_step(grid: Grid, row: int, col: int, row_step: int, col_step: int) -> Seq<
    SimpleMove,
> {
    if grid.is_free(row + row_step, col + col_step) {
        seq![
            SimpleMove {
                from_row: row as usize,
                from_col: col as usize,
                to_row: (row + row_step) as usize,
                to_col: (col + col_step) as usize,
            },
        ]
    } else {
        Seq::empty()
    }
}

/// The simple moves of a man: one row forward, to the left and then to the
/// right.
pub open spec fn simple_moves_for_man(grid: Grid, direction: Direction, row: int, col: int) -> Seq<
    SimpleMove,
> {
    simple_step(grid, row, col, forward(direction), -1) + simple_step(
        grid,
        row,
        col,
        forward(direction),
        1,
    )
}

/// The simple moves of a king: to the four diagonal neighbours, lower rows
/// first and in each row the lower column first.
pub open spec fn simple_moves_for_king(grid: Grid, row: int, col: int) -> Seq<SimpleMove> {
    simple_step(grid, row, col, -1, -1) + simple_step(grid, row, col, -1, 1) + simple_step(
        grid,
        row,
        col,
        1,
        -1,
    ) + simple_step(grid, row, col, 1, 1)
}

/// A capture tree as a mathematical value: the square a piece stands on,
/// and below it one tree for each capture that it can make next.
pub struct JumpTree {
    pub row: int,
    pub col: int,
    pub children: Seq<JumpTree>,
}

/// A node of a capture tree. The root stands on the square of the piece that
/// captures; each child stands on the square where one further capture lands.
#[derive(Debug, PartialEq, Eq)]
pub struct JumpMove {
    from_row: usize,
    from_col: usize,
    jumps: Vec<JumpMove>,
}

impl View for JumpMove {
    type V = JumpTree;

    closed spec fn view(&self) -> JumpTree {
        self.tree()
    }
}

/// The trees that a sequence of nodes stands for, in the same order.
pub open spec fn jump_trees(jumps: Seq<JumpMove>) -> Seq<JumpTree> {
    Seq::new(jumps.len(), |i: int| jumps[i]@)
}

impl JumpMove {
    spec fn tree(&self) -> JumpTree
        decreases self,
    {
        JumpTree {
            row: self.from_row as int,
            col: self.from_col as int,
            children: Seq::new(
                self.jumps@.len(),
                |i: int|
                    if 0 <= i < self.jumps@.len() {
                        self.jumps@[i].tree()
                    } else {
                        arbitrary()
                    },
            ),
        }
    }

    /// A node without children.
    pub fn new(from_row: usize, from_col: usize) -> (jump: JumpMove)
        ensures
            jump@ == (JumpTree { row: from_row as int, col: from_col as int, children: Seq::empty() }),
    {
        let jump = JumpMove { from_row, from_col, jumps: Vec::new() };
        assert(jump@.children =~= Seq::empty());
        jump
    }

    /// A node with the given children.
    pub fn with_jumps(from_row: usize, from_col: usize, jumps: Vec<JumpMove>) -> (jump: JumpMove)
        ensures
            jump@ == (JumpTree {
                row: from_row as int,
                col: from_col as int,
                children: jump_trees(jumps@),
            }),
    {
        let jump = JumpMove { from_row, from_col, jumps };
        assert(jump@.children =~= jump_trees(jumps@));
        jump
    }

    pub fn from_row(&self) -> (row: usize)
        ensures
            row == self@.row,
    {
        self.from_row
    }

    pub fn from_column(&self) -> (column: usize)
        ensures
            column == self@.col,
    {
        self.from_col
    }

    /// The children of the node.
    pub fn jumps(&self) -> (jumps: &Vec<JumpMove>)
        ensures
            jump_trees(jumps@) == self@.children,
    {
        assert(jump_trees(self.jumps@) =~= self@.children);
        &self.jumps
    }

    /// Tells whether the positions are those of a walk down the tree: the
    /// first that of this node, each next one that of a child of the node
    /// before. The walk may end at any node.
    pub fn contains_jump_sequence(&self, jumps: &Vec<BoardPosition>) -> (found: bool)
        ensures
            found == is_walk(self@, jumps@),
    {
        assert(jumps@.subrange(0, jumps@.len() as int) =~= jumps@);
        self.contains_sequence_from(jumps, 0)
    }

    #[verifier::loop_isolation(false)]
    fn contains_sequence_from(&self, jumps: &Vec<BoardPosition>, first: usize) -> (found: bool)
        requires
            first <= jumps.len(),
        ensures
            found == is_walk(self@, jumps@.subrange(first as int, jumps@.len() as int)),
        decreases self,
    {
        let ghost path = jumps@.subrange(first as int, jumps@.len() as int);
        if first >= jumps.len() {
            return false;
        }
        let position = jumps[first];
        assert(path[0] == position);
        if position.row != self.from_row || position.column != self.from_col {
            return false;
        }
        if first + 1 == jumps.len() {
            return true;
        }
        let ghost rest = jumps@.subrange(first + 1, jumps@.len() as int);
        assert(path.drop_first() =~= rest);
        let mut i: usize = 0;
        while i < self.jumps.len()
            invariant
                i <= self.jumps.len(),
                first + 1 < jumps.len(),
                rest == jumps@.subrange(first + 1, jumps@.len() as int),
                forall|k: int| 0 <= k < i ==> !is_walk(#[trigger] self@.children[k], rest),
            decreases self.jumps.len() - i,
        {
            if self.jumps[i].contains_sequence_from(jumps, first + 1) {
                assert(is_walk(self@.children[i as int], rest));
                return true;
            }
            i += 1;
        }
        false
    }
}

/// The positions are those of a walk down the tree: the first is the root's,
/// and each next one is that of a child of the node before. The walk may end
/// at any node of the tree.
pub open spec fn is_walk(tree: JumpTree, path: Seq<BoardPosition>) -> bool
    decreases path.len(),
{
    if path.len() == 0 {
        false
    } else if path[0].row != tree.row || path[0].column != tree.col {
        false
    } else if path.len() == 1 {
        true
    } else {
        exists|i: int|
            0 <= i < tree.children.len() && is_walk(#[trigger] tree.children[i], path.drop_first())
    }
}

/// A piece of another player than `player` stands on the square.
pub open spec fn holds_enemy(grid: Grid, player: u32, row: int, col: int) -> bool {
    grid.at(row, col) matches Some(piece) && piece.owner() != player
}

/// A man of `player` on a square can capture by the given steps: the square
/// two steps on is on the board and free, and an enemy stands on the square
/// between.
pub open spec fn man_can_jump(
    grid: Grid,
    player: u32,
    row: int,
    col: int,
    row_step: int,
    col_step: int,
) -> bool {
    &&& grid.is_free(row + 2 * row_step, col + 2 * col_step)
    &&& holds_enemy(grid, player, row + row_step, col + col_step)
}

/// How far a man on a row is from the edge that it moves toward, counted
/// so that every capture makes it less.
pub open spec fn rows_ahead(grid: Grid, direction: Direction, row: int) -> int {
    match direction {
        Direction::IncreasingRank => grid.rows - row,
        Direction::DecreasingRank => row,
    }
}

/// The capture tree of a man of `player` that stands on a square: below the
/// square, the capture to the left and then the capture to the right, each
/// where it can be made, and below each the captures that follow it, always
/// forward.
pub open spec fn man_jump_tree(
    grid: Grid,
    player: u32,
    direction: Direction,
    row: int,
    col: int,
) -> JumpTree
    decreases rows_ahead(grid, direction, row), 1int,
{
    JumpTree {
        row,
        col,
        children: man_branch(grid, player, direction, row, col, -1) + man_branch(
            grid,
            player,
            direction,
            row,
            col,
            1,
        ),
    }
}

/// The capture of a man to one side, with all that follows it: one tree
/// where the capture can be made, none where it cannot.
pub open spec fn man_branch(
    grid: Grid,
    player: u32,
    direction: Direction,
    row: int,
    col: int,
    col_step: int,
) -> Seq<JumpTree>
    decreases rows_ahead(grid, direction, row), 0int,
{
    if man_can_jump(grid, player, row, col, forward(direction), col_step) {
        seq![
            man_jump_tree(
                grid,
                player,
                direction,
                row + 2 * forward(direction),
                col + 2 * col_step,
            ),
        ]
    } else {
        Seq::empty()
    }
}

/// The squares that hold an enemy of `player` and are not among `captured`.
pub open spec fn uncaptured(grid: Grid, player: u32, captured: Set<(int, int)>) -> Set<(int, int)> {
    Set::new(
        |square: (int, int)|
            holds_enemy(grid, player, square.0, square.1) && !captured.contains(square),
    )
}

/// A king of `player` that set out from the start square, has captured on
/// the squares `captured` and now stands on a square, can capture by the
/// given steps: the square two steps on is on the board, and free or the
/// start square; an enemy stands on the square between, and it has not been
/// captured before.
pub open spec fn king_can_jump(
    grid: Grid,
    player: u32,
    start_row: int,
    start_col: int,
    captured: Set<(int, int)>,
    row: int,
    col: int,
    row_step: int,
    col_step: int,
) -> bool {
    &&& grid.in_bounds(row + 2 * row_step, col + 2 * col_step)
    &&& (grid.at(row + 2 * row_step, col + 2 * col_step) is None || (row + 2 * row_step == start_row
        && col + 2 * col_step == start_col))
    &&& holds_enemy(grid, player, row + row_step, col + col_step)
    &&& !captured.contains((row + row_step, col + col_step))
}

/// Every capture leaves fewer enemies to capture.
pub proof fn lemma_capture_shrinks(
    grid: Grid,
    player: u32,
    captured: Set<(int, int)>,
    row: int,
    col: int,
)
    requires
        holds_enemy(grid, player, row, col),
        !captured.contains((row, col)),
    ensures
        uncaptured(grid, player, captured).finite(),
        uncaptured(grid, player, captured.insert((row, col))).len() < uncaptured(
            grid,
            player,
            captured,
        ).len(),
{
    let before = uncaptured(grid, player, captured);
    let after = uncaptured(grid, player, captured.insert((row, col)));
    grid.lemma_squares_finite();
    assert(before.subset_of(grid.squares()));
    vstd::set_lib::lemma_len_subset(before, grid.squares());
    assert(before.contains((row, col)));
    assert(after =~= before.remove((row, col)));
}

/// The capture tree of a king of `player` that set out from the start
/// square, has captured on the squares `captured`, and now stands on a
/// square: below the square, the captures toward the four diagonals, lower
/// rows first and in each row the lower column first, each where it can be
/// made, and below each the captures that follow it.
pub open spec fn king_jump_tree(
    grid: Grid,
    player: u32,
    start_row: int,
    start_col: int,
    captured: Set<(int, int)>,
    row: int,
    col: int,
) -> JumpTree
    decreases uncaptured(grid, player, captured).len(), 1int,
{
    JumpTree {
        row,
        col,
        children: king_branch(grid, player, start_row, start_col, captured, row, col, -1, -1)
            + king_branch(grid, player, start_row, start_col, captured, row, col, -1, 1)
            + king_branch(grid, player, start_row, start_col, captured, row, col, 1, -1)
            + king_branch(grid, player, start_row, start_col, captured, row, col, 1, 1),
    }
}

/// The capture of a king toward one diagonal, with all that follows it: one
/// tree where the capture can be made, none where it cannot.
pub open spec fn king_branch(
    grid: Grid,
    player: u32,
    start_row: int,
    start_col: int,
    captured: Set<(int, int)>,
    row: int,
    col: int,
    row_step: int,
    col_step: int,
) -> Seq<JumpTree>
    decreases uncaptured(grid, player, captured).len(), 0int,
{
    if king_can_jump(grid, player, start_row, start_col, captured, row, col, row_step, col_step) {
        proof {
            lemma_capture_shrinks(grid, player, captured, row + row_step, col + col_step);
        }
        seq![
            king_jump_tree(
                grid,
                player,
                start_row,
                start_col,
                captured.insert((row + row_step, col + col_step)),
                row + 2 * row_step,
                col + 2 * col_step,
            ),
        ]
    } else {
        Seq::empty()
    }
}

/// The squares that a list of positions names.
pub open spec fn position_set(positions: Seq<BoardPosition>) -> Set<(int, int)> {
    Set::new(
        |square: (int, int)|
            exists|i: int|
                0 <= i < positions.len() && (#[trigger] positions[i]).row == square.0
                    && positions[i].column == square.1,
    )
}

/// One more position in the list is one more square in the set.
pub proof fn lemma_position_set_push(positions: Seq<BoardPosition>, position: BoardPosition)
    ensures
        position_set(positions.push(position)) == position_set(positions).insert(
            (position.row as int, position.column as int),
        ),
{
    let longer = positions.push(position);
    let square = (position.row as int, position.column as int);
    assert forall|s: (int, int)| position_set(longer).contains(s) implies position_set(
        positions,
    ).insert(square).contains(s) by {
        let i = choose|i: int|
            0 <= i < longer.len() && (#[trigger] longer[i]).row == s.0 && longer[i].column == s.1;
        if i < positions.len() {
            assert(positions[i] == longer[i]);
        }
    }
    assert forall|s: (int, int)| position_set(positions).insert(square).contains(
        s,
    ) implies position_set(longer).contains(s) by {
        if s == square {
            assert(longer[positions.len() as int] == position);
        } else {
            let i = choose|i: int|
                0 <= i < positions.len() && (#[trigger] positions[i]).row == s.0
                    && positions[i].column == s.1;
            assert(longer[i] == positions[i]);
        }
    }
    assert(position_set(longer) =~= position_set(positions).insert(square));
}

/// This enum describes an offset direction and magnitude.
enum TileOffset {
    Positive(usize),
    Negative(usize),
}

impl TileOffset {
    spec fn value(&self) -> int {
        match self {
            TileOffset::Positive(magnitude) => *magnitude as int,
            TileOffset::Negative(magnitude) => -(*magnitude as int),
        }
    }
}

/// Given the position of a man piece on a board, and the
/// direction this man piece is moving, determines the simple
/// moves available to this piece.
pub fn find_simple_moves_for_man(board: &Board, direction: Direction, row: usize, col: usize) -> (moves:
    Vec<SimpleMove>)
    requires
        board.wf(),
    ensures
        moves@ == simple_moves_for_man(board@, direction, row as int, col as int),
        forall|i: int|
            0 <= i < moves.len() ==> board@.is_free(
                (#[trigger] moves[i]).to_row as int,
                moves[i].to_col as int,
            ),
{
    let row_offset = match direction {
        Direction::DecreasingRank => TileOffset::Negative(1),
        Direction::IncreasingRank => TileOffset::Positive(1),
    };

    let mut moves = Vec::new();

    {
        let col_offset = TileOffset::Negative(1);
        push_simple_move_if_valid(board, row, col, &row_offset, &col_offset, &mut moves);
    }

    {
        let col_offset = TileOffset::Positive(1);
        push_simple_move_if_valid(board, row, col, &row_offset, &col_offset, &mut moves);
    }

    moves
}

/// Given the position of a king piece on a board, determines
/// the simple moves available to this piece.
///
/// This function does not require a Direction like the
/// find_simple_moves_for_man function, because kings can move
/// in all directions.
pub fn find_simple_moves_for_king(board: &Board, row: usize, col: usize) -> (moves: Vec<SimpleMove>)
    requires
        board.wf(),
    ensures
        moves@ == simple_moves_for_king(board@, row as int, col as int),
        forall|i: int|
            0 <= i < moves.len() ==> board@.is_free(
                (#[trigger] moves[i]).to_row as int,
                moves[i].to_col as int,
            ),
{
    let mut moves = Vec::new();

    {
        let row_offset = TileOffset::Negative(1);
        let col_offset = TileOffset::Negative(1);
        push_simple_move_if_valid(board, row, col, &row_offset, &col_offset, &mut moves);
    }

    {
        let row_offset = TileOffset::Negative(1);
        let col_offset = TileOffset::Positive(1);
        push_simple_move_if_valid(board, row, col, &row_offset, &col_offset, &mut moves);
    }

    {
        let row_offset = TileOffset::Positive(1);
        let col_offset = TileOffset::Negative(1);
        push_simple_move_if_valid(board, row, col, &row_offset, &col_offset, &mut moves);
    }

    {
        let row_offset = TileOffset::Positive(1);
        let col_offset = TileOffset::Positive(1);
        push_simple_move_if_valid(board, row, col, &row_offset, &col_offset, &mut moves);
    }

    moves
}

/// Given the position of a man piece on a board, the player who owns it and
/// the direction this man piece is moving, determines the captures
/// available to this piece, as a tree.
pub fn find_jump_moves_for_man(
    board: &Board,
    player: &Player,
    direction: Direction,
    row: usize,
    col: usize,
) -> (jump_root: JumpMove)
    requires
        board.wf(),
    ensures
        jump_root@ == man_jump_tree(board@, player.id, direction, row as int, col as int),
{
    let mut jump_root = JumpMove::new(row, col);

    let (pwnd_row_offset, jump_row_offset) = get_row_offsets(direction);

    find_jump_moves_for_man_rustcursive(
        board,
        player,
        Ghost(direction),
        &pwnd_row_offset,
        &jump_row_offset,
        &mut jump_root,
    );

    jump_root
}

fn find_jump_moves_for_man_rustcursive(
    board: &Board,
    player: &Player,
    Ghost(direction): Ghost<Direction>,
    pwnd_row_offset: &TileOffset,
    jump_row_offset: &TileOffset,
    jumps: &mut JumpMove,
)
    requires
        board.wf(),
        pwnd_row_offset.value() == forward(direction),
        jump_row_offset.value() == 2 * forward(direction),
        old(jumps)@.children.len() == 0,
    ensures
        final(jumps)@ == man_jump_tree(
            board@,
            player.id,
            direction,
            old(jumps)@.row,
            old(jumps)@.col,
        ),
    decreases rows_ahead(board@, direction, old(jumps)@.row), 1int,
{
    let col_offset_left = (TileOffset::Negative(1), TileOffset::Negative(2));
    let col_offset_right = (TileOffset::Positive(1), TileOffset::Positive(2));

    try_jump_moves_for_man(
        board,
        player,
        Ghost(direction),
        pwnd_row_offset,
        jump_row_offset,
        col_offset_left,
        jumps,
    );
    try_jump_moves_for_man(
        board,
        player,
        Ghost(direction),
        pwnd_row_offset,
        jump_row_offset,
        col_offset_right,
        jumps,
    );
    assert(jumps@.children =~= man_jump_tree(
        board@,
        player.id,
        direction,
        old(jumps)@.row,
        old(jumps)@.col,
    ).children);
}

fn try_jump_moves_for_man(
    board: &Board,
    player: &Player,
    Ghost(direction): Ghost<Direction>,
    pwnd_row_offset: &TileOffset,
    jump_row_offset: &TileOffset,
    col_offset: (TileOffset, TileOffset),
    jumps: &mut JumpMove,
)
    requires
        board.wf(),
        pwnd_row_offset.value() == forward(direction),
        jump_row_offset.value() == 2 * forward(direction),
        col_offset.0.value() == 1 || col_offset.0.value() == -1,
        col_offset.1.value() == 2 * col_offset.0.value(),
    ensures
        final(jumps)@ == (JumpTree {
            children: old(jumps)@.children + man_branch(
                board@,
                player.id,
                direction,
                old(jumps)@.row,
                old(jumps)@.col,
                col_offset.0.value(),
            ),
            ..old(jumps)@
        }),
    decreases rows_ahead(board@, direction, old(jumps)@.row), 0int,
{
    let start_row = jumps.from_row;
    let start_col = jumps.from_col;
    let (pwnd_col_offset, jump_col_offset) = col_offset;
    proof {
        board.lemma_view_wf();
        assert(jumps@.children + Seq::<JumpTree>::empty() =~= jumps@.children);
    }

    let tile_on_board = is_tile_offset_in_bounds(
        board,
        start_row,
        start_col,
        jump_row_offset,
        &jump_col_offset,
    );

    if !tile_on_board {
        return ;
    }
    let pwnd_on_board = is_tile_offset_in_bounds(
        board,
        start_row,
        start_col,
        pwnd_row_offset,
        &pwnd_col_offset,
    );

    if !pwnd_on_board {
        return ;
    }
    let (offset_row, offset_col) = offset_tile(
        start_row,
        start_col,
        pwnd_row_offset,
        &pwnd_col_offset,
    );
    let pwnd_tile = board.get_tile(offset_row, offset_col);

    let (offset_row, offset_col) = offset_tile(
        start_row,
        start_col,
        jump_row_offset,
        &jump_col_offset,
    );
    let jump_tile = board.get_tile(offset_row, offset_col);

    if jump_tile.get_piece().is_some() {
        return ;
    }
    let pwnd_piece_enemy = match pwnd_tile.get_piece() {
        Some(piece) => piece.get_player_id() != player.id,
        None => false,
    };

    if !pwnd_piece_enemy {
        return ;
    }
    let mut the_move = JumpMove::new(offset_row, offset_col);

    find_jump_moves_for_man_rustcursive(
        board,
        player,
        Ghost(direction),
        pwnd_row_offset,
        jump_row_offset,
        &mut the_move,
    );

    jumps.jumps.push(the_move);
    proof {
        assert(jumps@.children =~= old(jumps)@.children + man_branch(
            board@,
            player.id,
            direction,
            old(jumps)@.row,
            old(jumps)@.col,
            col_offset.0.value(),
        ));
    }
}

/// Given the position of a king piece on a board and the player who owns
/// it, determines the captures available to this piece, as a tree.
pub fn find_jump_moves_for_king(board: &Board, player: &Player, row: usize, col: usize) -> (jump_root:
    JumpMove)
    requires
        board.wf(),
    ensures
        jump_root@ == king_jump_tree(
            board@,
            player.id,
            row as int,
            col as int,
            Set::empty(),
            row as int,
            col as int,
        ),
{
    let mut jump_root = JumpMove::new(row, col);
    let mut jumped_tiles: Vec<BoardPosition> = Vec::new();
    assert(position_set(jumped_tiles@) =~= Set::empty());

    find_jump_moves_for_king_rustcursive(
        board,
        player,
        BoardPosition::new(row, col),
        &mut jump_root,
        &mut jumped_tiles,
    );

    jump_root
}

fn find_jump_moves_for_king_rustcursive(
    board: &Board,
    player: &Player,
    init_position: BoardPosition,
    curr_jump_root: &mut JumpMove,
    jumped_tiles: &mut Vec<BoardPosition>,
)
    requires
        board.wf(),
        old(curr_jump_root)@.children.len() == 0,
    ensures
        final(curr_jump_root)@ == king_jump_tree(
            board@,
            player.id,
            init_position.row as int,
            init_position.column as int,
            position_set(old(jumped_tiles)@),
            old(curr_jump_root)@.row,
            old(curr_jump_root)@.col,
        ),
        final(jumped_tiles)@ == old(jumped_tiles)@,
    decreases uncaptured(board@, player.id, position_set(old(jumped_tiles)@)).len(), 1int,
{
    push_jump_for_king_if_valid(
        board,
        player,
        init_position,
        curr_jump_root,
        jumped_tiles,
        TileOffset::Negative(1),
        TileOffset::Negative(2),
        TileOffset::Negative(1),
        TileOffset::Negative(2),
    );

    push_jump_for_king_if_valid(
        board,
        player,
        init_position,
        curr_jump_root,
        jumped_tiles,
        TileOffset::Negative(1),
        TileOffset::Negative(2),
        TileOffset::Positive(1),
        TileOffset::Positive(2),
    );

    push_jump_for_king_if_valid(
        board,
        player,
        init_position,
        curr_jump_root,
        jumped_tiles,
        TileOffset::Positive(1),
        TileOffset::Positive(2),
        TileOffset::Negative(1),
        TileOffset::Negative(2),
    );

    push_jump_for_king_if_valid(
        board,
        player,
        init_position,
        curr_jump_root,
        jumped_tiles,
        TileOffset::Positive(1),
        TileOffset::Positive(2),
        TileOffset::Positive(1),
        TileOffset::Positive(2),
    );
    assert(curr_jump_root@.children =~= king_jump_tree(
        board@,
        player.id,
        init_position.row as int,
        init_position.column as int,
        position_set(old(jumped_tiles)@),
        old(curr_jump_root)@.row,
        old(curr_jump_root)@.col,
    ).children);
}

fn push_jump_for_king_if_valid(
    board: &Board,
    player: &Player,
    init_position: BoardPosition,
    curr_jump_root: &mut JumpMove,
    jumped_tiles: &mut Vec<BoardPosition>,
    pwnd_row_offset: TileOffset,
    jump_row_offset: TileOffset,
    pwnd_col_offset: TileOffset,
    jump_col_offset: TileOffset,
)
    requires
        board.wf(),
        pwnd_row_offset.value() == 1 || pwnd_row_offset.value() == -1,
        pwnd_col_offset.value() == 1 || pwnd_col_offset.value() == -1,
        jump_row_offset.value() == 2 * pwnd_row_offset.value(),
        jump_col_offset.value() == 2 * pwnd_col_offset.value(),
    ensures
        final(curr_jump_root)@ == (JumpTree {
            children: old(curr_jump_root)@.children + king_branch(
                board@,
                player.id,
                init_position.row as int,
                init_position.column as int,
                position_set(old(jumped_tiles)@),
                old(curr_jump_root)@.row,
                old(curr_jump_root)@.col,
                pwnd_row_offset.value(),
                pwnd_col_offset.value(),
            ),
            ..old(curr_jump_root)@
        }),
        final(jumped_tiles)@ == old(jumped_tiles)@,
    decreases uncaptured(board@, player.id, position_set(old(jumped_tiles)@)).len(), 0int,
{
    let start_row = curr_jump_root.from_row;
    let start_col = curr_jump_root.from_col;
    proof {
        board.lemma_view_wf();
        assert(curr_jump_root@.children + Seq::<JumpTree>::empty() =~= curr_jump_root@.children);
    }

    let tile_on_board = is_tile_offset_in_bounds(
        board,
        start_row,
        start_col,
        &jump_row_offset,
        &jump_col_offset,
    );
    if !tile_on_board {
        return ;
    }
    let pwnd_on_board = is_tile_offset_in_bounds(
        board,
        start_row,
        start_col,
        &pwnd_row_offset,
        &pwnd_col_offset,
    );
    if !pwnd_on_board {
        return ;
    }
    let (jumped_row, jumped_col) = offset_tile(
        start_row,
        start_col,
        &pwnd_row_offset,
        &pwnd_col_offset,
    );
    let pwnd_tile = board.get_tile(jumped_row, jumped_col);

    let (end_row, end_col) = offset_tile(start_row, start_col, &jump_row_offset, &jump_col_offset);
    let end_tile = board.get_tile(end_row, end_col);

    let tile_blocked = end_tile.get_piece().is_some();

    // The initial position of the jumping piece is OK to jump back to. This is because
    // the jumping piece "floats" around the board while the other pieces remain fixed.
    let at_initial_position = init_position == BoardPosition::new(end_row, end_col);
    if tile_blocked && !at_initial_position {
        return ;
    }
    let pwnd_piece_enemy = match pwnd_tile.get_piece() {
        Some(piece) => piece.get_player_id() != player.id,
        None => false,
    };

    if !pwnd_piece_enemy {
        return ;
    }
    // check to see if we have already jumped the tile

    let jumped_position = BoardPosition::new(jumped_row, jumped_col);
    if position_listed(jumped_tiles, jumped_position) {
        return ;
    }
    let mut jump = JumpMove::new(end_row, end_col);

    jumped_tiles.push(jumped_position);
    proof {
        lemma_position_set_push(old(jumped_tiles)@, jumped_position);
        lemma_capture_shrinks(
            board@,
            player.id,
            position_set(old(jumped_tiles)@),
            jumped_row as int,
            jumped_col as int,
        );
    }

    find_jump_moves_for_king_rustcursive(board, player, init_position, &mut jump, jumped_tiles);

    jumped_tiles.pop();

    curr_jump_root.jumps.push(jump);
    proof {
        assert(jumped_tiles@ =~= old(jumped_tiles)@);
        assert(curr_jump_root@.children =~= old(curr_jump_root)@.children + king_branch(
            board@,
            player.id,
            init_position.row as int,
            init_position.column as int,
            position_set(old(jumped_tiles)@),
            old(curr_jump_root)@.row,
            old(curr_jump_root)@.col,
            pwnd_row_offset.value(),
            pwnd_col_offset.value(),
        ));
    }
}

// tells whether a position is among those of a list
fn position_listed(positions: &Vec<BoardPosition>, position: BoardPosition) -> (listed: bool)
    ensures
        listed == position_set(positions@).contains((position.row as int, position.column as int)),
{
    let mut i: usize = 0;
    while i < positions.len()
        invariant
            i <= positions.len(),
            forall|k: int| 0 <= k < i ==> positions[k] != position,
        decreases positions.len() - i,
    {
        if positions[i] == position {
            return true;
        }
        i += 1;
    }
    false
}

fn get_row_offsets(direction: Direction) -> (offsets: (TileOffset, TileOffset))
    ensures
        offsets.0.value() == forward(direction),
        offsets.1.value() == 2 * forward(direction),
{
    let (pwnd_row_offset, jump_row_offset) = match direction {
        Direction::DecreasingRank => (TileOffset::Negative(1), TileOffset::Negative(2)),
        Direction::IncreasingRank => (TileOffset::Positive(1), TileOffset::Positive(2)),
    };

    (pwnd_row_offset, jump_row_offset)
}

// checks if it is possible to make a simple move with the given row
// and tile offset, and if so, adds the move to the vector
fn push_simple_move_if_valid(
    board: &Board,
    start_row: usize,
    start_col: usize,
    row_offset: &TileOffset,
    col_offset: &TileOffset,
    moves: &mut Vec<SimpleMove>,
)
    requires
        board.wf(),
        forall|i: int|
            0 <= i < old(moves).len() ==> board@.is_free(
                (#[trigger] old(moves)[i]).to_row as int,
                old(moves)[i].to_col as int,
            ),
    ensures
        final(moves)@ == old(moves)@ + simple_step(
            board@,
            start_row as int,
            start_col as int,
            row_offset.value(),
            col_offset.value(),
        ),
        forall|i: int|
            0 <= i < final(moves).len() ==> board@.is_free(
                (#[trigger] final(moves)[i]).to_row as int,
                final(moves)[i].to_col as int,
            ),
{
    let tile_on_board = is_tile_offset_in_bounds(board, start_row, start_col, row_offset, col_offset);
    proof {
        board.lemma_view_wf();
    }
    if tile_on_board {
        let (offset_row, offset_col) = offset_tile(start_row, start_col, row_offset, col_offset);
        let tile = board.get_tile(offset_row, offset_col);
        if tile.get_piece().is_none() {
            let the_move = SimpleMove::new(start_row, start_col, offset_row, offset_col);
            moves.push(the_move);
        }
    }
}

// offsets a value based on the given offset direction and magnitude
fn offset_value(start_value: usize, value_offset: &TileOffset) -> (value: usize)
    requires
        0 <= start_value + value_offset.value() <= usize::MAX,
    ensures
        value == start_value + value_offset.value(),
{
    match *value_offset {
        TileOffset::Negative(magnitude) => start_value - magnitude,
        TileOffset::Positive(magnitude) => start_value + magnitude,
    }
}

// Offsets a tile based on the given offset direction
// and magnitude in the row and column dimensions.
//
// Returns a 2 element tuple, where the first element
// is the offset row, and the second element is the
// offset column.
fn offset_tile(
    start_row: usize,
    start_col: usize,
    row_offset: &TileOffset,
    col_offset: &TileOffset,
) -> (tile: (usize, usize))
    requires
        0 <= start_row + row_offset.value() <= usize::MAX,
        0 <= start_col + col_offset.value() <= usize::MAX,
    ensures
        tile.0 == start_row + row_offset.value(),
        tile.1 == start_col + col_offset.value(),
{
    (offset_value(start_row, row_offset), offset_value(start_col, col_offset))
}

// checks if a value stays below the given count, and does not fall
// below zero, when the given offset is applied to it
fn is_offset_value_in_range(start_value: usize, count: usize, value_offset: &TileOffset) -> (in_range:
    bool)
    ensures
        in_range == (0 <= start_value + value_offset.value() < count),
{
    match *value_offset {
        TileOffset::Negative(magnitude) => start_value >= magnitude && start_value - magnitude
            < count,
        TileOffset::Positive(magnitude) => start_value < count && magnitude < count - start_value,
    }
}

// checks if a tile on the board can be reached when
// moving from one position on the board to another
fn is_tile_offset_in_bounds(
    board: &Board,
    start_row: usize,
    start_col: usize,
    row_offset: &TileOffset,
    col_offset: &TileOffset,
) -> (on_board: bool)
    ensures
        on_board == board@.in_bounds(
            start_row + row_offset.value(),
            start_col + col_offset.value(),
        ),
{
    is_offset_value_in_range(start_row, board.number_rows(), row_offset)
        && is_offset_value_in_range(start_col, board.number_columns(), col_offset)
}

} // verus!
