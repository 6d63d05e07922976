//! A two-player draughts (checkers) engine: the board, the moves that each
//! piece has, and the game that applies them.
//!
//! - `player`, `piece`, `tile`, `board`: what stands where. A `Board` is seen
//!   in contracts as a `Grid`.
//! - `ai`: the simple moves of one piece and its tree of captures, each
//!   stated by a function on grids. `walks`: what holds along every walk
//!   down such a tree.
//! - `rules`: a game as a value, and the game after a move as a function of
//!   the game before it. `laws`: what follows for every move.
//! - `game`: the `Game` that plays by these rules.
//! - `input`, `display`, `text`, `util`: moves read from text, boards written
//!   as text.

pub mod ai;
pub mod board;
pub mod display;
pub mod game;
pub mod input;
pub mod laws;
pub mod piece;
pub mod player;
pub mod rules;
pub mod text;
pub mod tile;
pub mod util;
pub mod walks;

pub use ai::{
    find_jump_moves_for_king, find_jump_moves_for_man, find_simple_moves_for_king,
    find_simple_moves_for_man, Direction, JumpMove, JumpTree, SimpleMove,
};
pub use board::{Board, BoardPosition, Grid};
pub use display::{
    player_color_to_name, player_id_to_color, print_board, PlayerColor, MAX_FILES,
};
pub use game::{apply_positions_as_move, Game};
pub use input::{
    can_parse_move, parse_move, read_move, try_parse_move, InputError, TokenError,
};
pub use piece::{AnyPiece, KingPiece, ManPiece, Piece, PieceType};
pub use player::Player;
pub use rules::{GameState, GameView, MoveError};
pub use text::{classify, spell, Classified};
pub use tile::{AnyTile, EmptyTile, OccupiedTile, Tile};
pub use util::absolute_diff;
