use crate::piece::{AnyPiece, Piece};
use vstd::prelude::*;

verus! {

/// A square of the board: empty, or holding one piece.
pub trait Tile {
    /// The piece on the tile, if there is one.
    spec fn piece(&self) -> Option<AnyPiece>;

    fn get_piece(&self) -> (piece: Option<&AnyPiece>)
        ensures
            match piece {
                Some(p) => self.piece() == Some(*p),
                None => self.piece() is None,
            },
    ;
}

/// A tile with nothing on it.
#[derive(Clone, Copy, Debug, PartialEq, Eq, Structural)]
pub struct EmptyTile;

impl Tile for EmptyTile {
    open spec fn piece(&self) -> Option<AnyPiece> {
        None
    }

    fn get_piece(&self) -> (piece: Option<&AnyPiece>) {
        None
    }
}

/// A tile with a piece on it.
#[derive(Clone, Copy, Debug, PartialEq, Eq, Structural)]
pub struct OccupiedTile {
    pub piece: AnyPiece,
}

impl OccupiedTile {
    pub fn new<P: Piece>(piece: Box<P>) -> (tile: OccupiedTile)
        ensures
            tile.piece == AnyPiece::of(piece.owner(), piece.kind()),
    {
        OccupiedTile { piece: AnyPiece::from_piece(&*piece) }
    }
}

impl Tile for OccupiedTile {
    open spec fn piece(&self) -> Option<AnyPiece> {
        Some(self.piece)
    }

    fn get_piece(&self) -> (piece: Option<&AnyPiece>) {
        Some(&self.piece)
    }
}

/// A tile of either form, as the board stores it.
#[derive(Clone, Copy, Debug, PartialEq, Eq, Structural)]
pub enum AnyTile {
    Empty(EmptyTile),
    Occupied(OccupiedTile),
}

impl AnyTile {
    /// The stored tile that holds exactly `piece`.
    pub open spec fn holding(piece: Option<AnyPiece>) -> AnyTile {
        match piece {
            None => AnyTile::Empty(EmptyTile),
            Some(p) => AnyTile::Occupied(OccupiedTile { piece: p }),
        }
    }

    /// Copies any tile into the form that the board stores.
    pub fn from_tile<T: Tile>(tile: &T) -> (any: AnyTile)
        ensures
            any == AnyTile::holding(tile.piece()),
    {
        match tile.get_piece() {
            None => AnyTile::Empty(EmptyTile),
            Some(p) => AnyTile::Occupied(OccupiedTile { piece: *p }),
        }
    }
}

impl Tile for AnyTile {
    open spec fn piece(&self) -> Option<AnyPiece> {
        match self {
            AnyTile::Empty(_) => None,
            AnyTile::Occupied(tile) => Some(tile.piece),
        }
    }

    fn get_piece(&self) -> (piece: Option<&AnyPiece>) {
        match self {
            AnyTile::Empty(_) => None,
            AnyTile::Occupied(tile) => Some(&tile.piece),
        }
    }
}

} // verus!
