use crate::player::Player;
use vstd::prelude::*;

verus! {

/// The two kinds of piece: a man moves toward its owner's far edge only,
/// a king along all four diagonals.
#[derive(Clone, Copy, Debug, PartialEq, Eq, Structural)]
pub enum PieceType {
    Man,
    King,
}

/// What every piece can tell about itself: who owns it and of which kind it is.
pub trait Piece {
    /// The identity of the owning player.
    spec fn owner(&self) -> u32;

    /// The kind of the piece.
    spec fn kind(&self) -> PieceType;

    fn get_player_id(&self) -> (id: u32)
        ensures
            id == self.owner(),
    ;

    fn get_type(&self) -> (kind: PieceType)
        ensures
            kind == self.kind(),
    ;
}

/// A man owned by one player.
#[derive(Clone, Copy, Debug, PartialEq, Eq, Structural)]
pub struct ManPiece {
    pub player_id: u32,
}

impl ManPiece {
    pub fn new(player: &Player) -> (piece: ManPiece)
        ensures
            piece == (ManPiece { player_id: player.id }),
    {
        ManPiece { player_id: player.id }
    }
}

impl Piece for ManPiece {
    open spec fn owner(&self) -> u32 {
        self.player_id
    }

    open spec fn kind(&self) -> PieceType {
        PieceType::Man
    }

    fn get_player_id(&self) -> (id: u32) {
        self.player_id
    }

    fn get_type(&self) -> (kind: PieceType) {
        PieceType::Man
    }
}

/// A king owned by one player.
#[derive(Clone, Copy, Debug, PartialEq, Eq, Structural)]
pub struct KingPiece {
    pub player_id: u32,
}

impl KingPiece {
    pub fn new(player: &Player) -> (piece: KingPiece)
        ensures
            piece == (KingPiece { player_id: player.id }),
    {
        KingPiece { player_id: player.id }
    }
}

impl Piece for KingPiece {
    open spec fn owner(&self) -> u32 {
        self.player_id
    }

    open spec fn kind(&self) -> PieceType {
        PieceType::King
    }

    fn get_player_id(&self) -> (id: u32) {
        self.player_id
    }

    fn get_type(&self) -> (kind: PieceType) {
        PieceType::King
    }
}

/// A piece of either kind, as a tile of the board holds it.
#[derive(Clone, Copy, Debug, PartialEq, Eq, Structural)]
pub enum AnyPiece {
    Man(ManPiece),
    King(KingPiece),
}

impl AnyPiece {
    /// The piece with the given owner and kind.
    pub open spec fn of(owner: u32, kind: PieceType) -> AnyPiece {
        match kind {
            PieceType::Man => AnyPiece::Man(ManPiece { player_id: owner }),
            PieceType::King => AnyPiece::King(KingPiece { player_id: owner }),
        }
    }

    /// Copies any piece into the form that a tile holds.
    pub fn from_piece<P: Piece>(piece: &P) -> (any: AnyPiece)
        ensures
            any == AnyPiece::of(piece.owner(), piece.kind()),
    {
        let owner: u32 = piece.get_player_id();
        match piece.get_type() {
            PieceType::Man => AnyPiece::Man(ManPiece { player_id: owner }),
            PieceType::King => AnyPiece::King(KingPiece { player_id: owner }),
        }
    }
}

impl Piece for AnyPiece {
    open spec fn owner(&self) -> u32 {
        match self {
            AnyPiece::Man(man) => man.player_id,
            AnyPiece::King(king) => king.player_id,
        }
    }

    open spec fn kind(&self) -> PieceType {
        match self {
            AnyPiece::Man(_) => PieceType::Man,
            AnyPiece::King(_) => PieceType::King,
        }
    }

    fn get_player_id(&self) -> (id: u32) {
        match self {
            AnyPiece::Man(man) => man.player_id,
            AnyPiece::King(king) => king.player_id,
        }
    }

    fn get_type(&self) -> (kind: PieceType) {
        match self {
            AnyPiece::Man(_) => PieceType::Man,
            AnyPiece::King(_) => PieceType::King,
        }
    }
}

} // verus!
