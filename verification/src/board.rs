use crate::piece::{AnyPiece, ManPiece};
use crate::player::Player;
use crate::tile::{AnyTile, EmptyTile, OccupiedTile, Tile};
use vstd::prelude::*;

verus! {

/// A square of a board, by its zero-based row and column.
#[derive(Clone, Copy, Debug, PartialEq, Eq, Hash, Structural)]
pub struct BoardPosition {
    pub row: usize,
    pub column: usize,
}

impl BoardPosition {
    pub fn new(row: usize, column: usize) -> (position: BoardPosition)
        ensures
            position == (BoardPosition { row, column }),
    {
        BoardPosition { row, column }
    }
}

/// The board as a mathematical value: its size, and what each square holds.
#[verifier::ext_equal]
pub struct Grid {
    pub rows: nat,
    pub columns: nat,
    pub tiles: Seq<Seq<Option<AnyPiece>>>,
}

impl Grid {
    /// There is one entry for each square, and the machine can count the rows
    /// and the columns.
    pub open spec fn wf(self) -> bool {
        &&& self.rows <= usize::MAX
        &&& self.columns <= usize::MAX
        &&& self.tiles.len() == self.rows
        &&& forall|row: int| 0 <= row < self.rows ==> (#[trigger] self.tiles[row]).len() == self.columns
    }

    pub open spec fn in_bounds(self, row: int, col: int) -> bool {
        0 <= row < self.rows && 0 <= col < self.columns
    }

    /// The piece on a square; no piece stands outside the board.
    pub open spec fn at(self, row: int, col: int) -> Option<AnyPiece> {
        if self.in_bounds(row, col) {
            self.tiles[row][col]
        } else {
            None
        }
    }

    /// The square is on the board and nothing stands on it.
    pub open spec fn is_free(self, row: int, col: int) -> bool {
        self.in_bounds(row, col) && self.at(row, col) is None
    }

    /// A board of the given size with no piece on it.
    pub open spec fn empty(rows: nat, columns: nat) -> Grid {
        Grid { rows, columns, tiles: Seq::new(rows, |row: int| Seq::new(columns, |col: int| None)) }
    }

    /// The board with one square replaced. A square outside the board changes
    /// nothing.
    pub open spec fn set(self, row: int, col: int, piece: Option<AnyPiece>) -> Grid {
        if self.in_bounds(row, col) {
            Grid { tiles: self.tiles.update(row, self.tiles[row].update(col, piece)), ..self }
        } else {
            self
        }
    }

    /// The board with the contents of two squares exchanged.
    pub open spec fn swap(self, row1: int, col1: int, row2: int, col2: int) -> Grid {
        self.set(row1, col1, self.at(row2, col2)).set(row2, col2, self.at(row1, col1))
    }

    /// What the standard opening position holds on a square: men of the
    /// first player on the dark squares of rows 0 to 2, men of the second on
    /// those of rows 5 to 7.
    pub open spec fn opening_tile(first: u32, second: u32, row: int, col: int) -> Option<AnyPiece> {
        if (row + col) % 2 != 0 {
            None
        } else if 0 <= row < 3 {
            Some(AnyPiece::Man(ManPiece { player_id: first }))
        } else if 5 <= row < 8 {
            Some(AnyPiece::Man(ManPiece { player_id: second }))
        } else {
            None
        }
    }

    /// The standard opening position on an 8 by 8 board.
    pub open spec fn opening(first: u32, second: u32) -> Grid {
        Grid {
            rows: 8,
            columns: 8,
            tiles: Seq::new(
                8,
                |row: int| Seq::new(8, |col: int| Grid::opening_tile(first, second, row, col)),
            ),
        }
    }

    /// The squares of the board.
    pub open spec fn squares(self) -> Set<(int, int)> {
        Set::new(|square: (int, int)| self.in_bounds(square.0, square.1))
    }

    /// A board has finitely many squares.
    pub proof fn lemma_squares_finite(self)
        ensures
            self.squares().finite(),
    {
        lemma_rectangle_finite(self.rows, self.columns);
        assert(self.squares() =~= rectangle(self.rows, self.columns));
    }

    /// Replacing a square changes that square and no other, and keeps the
    /// size.
    pub proof fn lemma_set(self, row: int, col: int, piece: Option<AnyPiece>)
        requires
            self.wf(),
        ensures
            self.set(row, col, piece).wf(),
            self.set(row, col, piece).rows == self.rows,
            self.set(row, col, piece).columns == self.columns,
            forall|r: int, c: int|
                #[trigger] self.set(row, col, piece).at(r, c) == if self.in_bounds(row, col) && r == row
                    && c == col {
                    piece
                } else {
                    self.at(r, c)
                },
    {
    }

    /// Two boards of one size that hold the same on every square are the
    /// same board.
    pub proof fn lemma_ext_equal(self, other: Grid)
        requires
            self.wf(),
            other.wf(),
            self.rows == other.rows,
            self.columns == other.columns,
            forall|r: int, c: int| self.in_bounds(r, c) ==> self.at(r, c) == other.at(r, c),
        ensures
            self == other,
    {
        assert forall|r: int| 0 <= r < self.rows implies self.tiles[r] =~= other.tiles[r] by {
            assert forall|c: int| 0 <= c < self.columns implies self.tiles[r][c] == other.tiles[r][c] by {
                assert(self.in_bounds(r, c));
                assert(self.at(r, c) == other.at(r, c));
            }
        }
        assert(self.tiles =~= other.tiles);
    }
}

/// The squares of the first `rows` rows and the first `columns` columns.
spec fn rectangle(rows: nat, columns: nat) -> Set<(int, int)> {
    Set::new(|square: (int, int)| 0 <= square.0 < rows && 0 <= square.1 < columns)
}

/// The squares of one row in the first `columns` columns.
spec fn row_segment(row: int, columns: nat) -> Set<(int, int)> {
    Set::new(|square: (int, int)| square.0 == row && 0 <= square.1 < columns)
}

proof fn lemma_row_segment_finite(row: int, columns: nat)
    ensures
        row_segment(row, columns).finite(),
    decreases columns,
{
    if columns == 0 {
        assert(row_segment(row, columns) =~= Set::empty());
    } else {
        let shorter = (columns - 1) as nat;
        lemma_row_segment_finite(row, shorter);
        assert(row_segment(row, columns) =~= row_segment(row, shorter).insert((row, shorter as int)));
    }
}

proof fn lemma_rectangle_finite(rows: nat, columns: nat)
    ensures
        rectangle(rows, columns).finite(),
    decreases rows,
{
    if rows == 0 {
        assert(rectangle(rows, columns) =~= Set::empty());
    } else {
        let fewer = (rows - 1) as nat;
        lemma_rectangle_finite(fewer, columns);
        lemma_row_segment_finite(fewer as int, columns);
        assert(rectangle(rows, columns) =~= rectangle(fewer, columns).union(
            row_segment(fewer as int, columns),
        ));
    }
}

/// A rectangular board that owns its tiles, row after row.
pub struct Board {
    number_rows: usize,
    number_columns: usize,
    tiles: Vec<AnyTile>,
}

impl View for Board {
    type V = Grid;

    closed spec fn view(&self) -> Grid {
        Grid {
            rows: self.number_rows as nat,
            columns: self.number_columns as nat,
            tiles: Seq::new(
                self.number_rows as nat,
                |row: int|
                    Seq::new(
                        self.number_columns as nat,
                        |col: int| self.tiles@[row * self.number_columns + col].piece(),
                    ),
            ),
        }
    }
}

proof fn lemma_index_in_range(rows: int, columns: int, row: int, col: int)
    requires
        0 <= row < rows,
        0 <= col < columns,
    ensures
        0 <= row * columns + col < rows * columns,
        0 <= row * columns,
{
    assert(row * columns + columns <= rows * columns) by (nonlinear_arith)
        requires
            0 <= row < rows,
            0 <= columns,
    ;
    assert(0 <= row * columns) by (nonlinear_arith)
        requires
            0 <= row,
            0 <= columns,
    ;
}

proof fn lemma_index_injective(columns: int, row1: int, col1: int, row2: int, col2: int)
    requires
        0 <= col1 < columns,
        0 <= col2 < columns,
        row1 * columns + col1 == row2 * columns + col2,
    ensures
        row1 == row2,
        col1 == col2,
{
    if row1 < row2 {
        assert(row1 * columns + columns <= row2 * columns) by (nonlinear_arith)
            requires
                row1 < row2,
                0 <= columns,
        ;
    } else if row2 < row1 {
        assert(row2 * columns + columns <= row1 * columns) by (nonlinear_arith)
            requires
                row2 < row1,
                0 <= columns,
        ;
    }
}

impl Board {
    /// The board holds one tile for each of its squares.
    pub closed spec fn wf(&self) -> bool {
        self.tiles@.len() == self.number_rows * self.number_columns
    }

    /// The view of a board is a well-formed grid.
    pub proof fn lemma_view_wf(&self)
        ensures
            self@.wf(),
    {
    }

    /// Creates a board of the given size with every tile empty.
    pub fn new(number_rows: usize, number_columns: usize) -> (board: Board)
        requires
            number_rows * number_columns <= usize::MAX,
        ensures
            board.wf(),
            board@ == Grid::empty(number_rows as nat, number_columns as nat),
    {
        let count: usize = number_rows * number_columns;
        let tiles = vec![AnyTile::Empty(EmptyTile); count];
        let board = Board { number_rows, number_columns, tiles };
        proof {
            let grid = Grid::empty(number_rows as nat, number_columns as nat);
            assert forall|r: int, c: int| board@.in_bounds(r, c) implies board@.at(r, c) == grid.at(
                r,
                c,
            ) by {
                lemma_index_in_range(number_rows as int, number_columns as int, r, c);
            }
            board@.lemma_ext_equal(grid);
        }
        board
    }

    pub fn number_rows(&self) -> (rows: usize)
        ensures
            rows == self@.rows,
    {
        self.number_rows
    }

    pub fn number_columns(&self) -> (columns: usize)
        ensures
            columns == self@.columns,
    {
        self.number_columns
    }

    /// The tile of a square of the board.
    pub fn get_tile(&self, row: usize, col: usize) -> (tile: &AnyTile)
        requires
            self.wf(),
            row < self@.rows,
            col < self@.columns,
        ensures
            tile.piece() == self@.at(row as int, col as int),
    {
        let count: usize = self.tiles.len();
        proof {
            lemma_index_in_range(
                self.number_rows as int,
                self.number_columns as int,
                row as int,
                col as int,
            );
        }
        &self.tiles[row * self.number_columns + col]
    }

    /// Puts a tile on a square of the board, in place of the one there.
    pub fn set_tile<T: Tile>(&mut self, row: usize, col: usize, tile: Box<T>)
        requires
            old(self).wf(),
            row < old(self)@.rows,
            col < old(self)@.columns,
        ensures
            final(self).wf(),
            final(self)@ == old(self)@.set(row as int, col as int, tile.piece()),
    {
        let stored = AnyTile::from_tile(&*tile);
        self.store(row, col, stored);
    }

    /// Empties a square of the board.
    pub fn clear_tile(&mut self, row: usize, col: usize)
        requires
            old(self).wf(),
            row < old(self)@.rows,
            col < old(self)@.columns,
        ensures
            final(self).wf(),
            final(self)@ == old(self)@.set(row as int, col as int, None),
    {
        self.store(row, col, AnyTile::Empty(EmptyTile));
    }

    /// Exchanges the tiles of two squares of the board.
    pub fn swap_tiles(&mut self, row1: usize, col1: usize, row2: usize, col2: usize)
        requires
            old(self).wf(),
            row1 < old(self)@.rows,
            col1 < old(self)@.columns,
            row2 < old(self)@.rows,
            col2 < old(self)@.columns,
        ensures
            final(self).wf(),
            final(self)@ == old(self)@.swap(row1 as int, col1 as int, row2 as int, col2 as int),
    {
        let first = *self.get_tile(row1, col1);
        let second = *self.get_tile(row2, col2);
        self.store(row1, col1, second);
        self.store(row2, col2, first);
    }

    fn store(&mut self, row: usize, col: usize, tile: AnyTile)
        requires
            old(self).wf(),
            row < old(self)@.rows,
            col < old(self)@.columns,
        ensures
            final(self).wf(),
            final(self)@ == old(self)@.set(row as int, col as int, tile.piece()),
    {
        let count: usize = self.tiles.len();
        proof {
            lemma_index_in_range(
                self.number_rows as int,
                self.number_columns as int,
                row as int,
                col as int,
            );
        }
        let index: usize = row * self.number_columns + col;
        self.tiles.set(index, tile);
        proof {
            let expected = old(self)@.set(row as int, col as int, tile.piece());
            old(self)@.lemma_set(row as int, col as int, tile.piece());
            assert forall|r: int, c: int| self@.in_bounds(r, c) implies self@.at(r, c) == expected.at(
                r,
                c,
            ) by {
                lemma_index_in_range(self.number_rows as int, self.number_columns as int, r, c);
                if r * self.number_columns + c == index {
                    lemma_index_injective(self.number_columns as int, r, c, row as int, col as int);
                }
            }
            self@.lemma_ext_equal(expected);
        }
    }

    /// Creates an 8 by 8 board in the standard opening position: the first
    /// player's men on rows 0 to 2, the second player's on rows 5 to 7.
    pub fn new_checkerboard(player1: &Player, player2: &Player) -> (board: Board)
        requires
            player1.id != player2.id,
        ensures
            board.wf(),
            board@ == Grid::opening(player1.id, player2.id),
    {
        assert(8 * 8 == 64);
        let mut board = Board::new(8, 8);
        let mut row: usize = 0;
        while row < 8
            invariant
                row <= 8,
                board.wf(),
                board@.rows == 8,
                board@.columns == 8,
                forall|r: int, c: int|
                    0 <= r < 8 && 0 <= c < 8 ==> #[trigger] board@.at(r, c) == if r < row {
                        Grid::opening_tile(player1.id, player2.id, r, c)
                    } else {
                        None
                    },
            decreases 8 - row,
        {
            let mut col: usize = 0;
            while col < 8
                invariant
                    row < 8,
                    col <= 8,
                    board.wf(),
                    board@.rows == 8,
                    board@.columns == 8,
                    forall|r: int, c: int|
                        0 <= r < 8 && 0 <= c < 8 ==> #[trigger] board@.at(r, c) == if r < row || (r
                            == row && c < col) {
                            Grid::opening_tile(player1.id, player2.id, r, c)
                        } else {
                            None
                        },
                decreases 8 - col,
            {
                proof {
                    board.lemma_view_wf();
                }
                if (row + col) % 2 == 0 {
                    if row < 3 {
                        let ghost before = board@;
                        let piece = ManPiece::new(player1);
                        board.set_tile(row, col, Box::new(OccupiedTile::new(Box::new(piece))));
                        proof {
                            before.lemma_set(row as int, col as int, Some(AnyPiece::Man(piece)));
                        }
                    } else if row >= 5 {
                        let ghost before = board@;
                        let piece = ManPiece::new(player2);
                        board.set_tile(row, col, Box::new(OccupiedTile::new(Box::new(piece))));
                        proof {
                            before.lemma_set(row as int, col as int, Some(AnyPiece::Man(piece)));
                        }
                    }
                }
                col += 1;
            }
            row += 1;
        }
        proof {
            board.lemma_view_wf();
            let grid = Grid::opening(player1.id, player2.id);
            assert forall|r: int, c: int| board@.in_bounds(r, c) implies board@.at(r, c) == grid.at(
                r,
                c,
            ) by {
            }
            board@.lemma_ext_equal(grid);
        }
        board
    }
}

} // verus!
