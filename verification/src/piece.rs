//! Pieces: their kinds, owners, and per-turn bookkeeping.

use vstd::prelude::*;

use crate::board::Player;

verus! {

/// The kind of a piece on the board. A rook is called `Castle` here.
/// A pawn remembers how many turn ends have passed since it double-advanced
/// (`Some(1)` exactly when a neighbouring enemy pawn may take it en passant).
#[derive(Debug, Clone, Copy, PartialEq, Eq, Structural)]
pub enum PieceType {
    King,
    Queen,
    Castle,
    Bishop,
    Knight,
    Pawn { turns_since_double_advance: Option<i32> },
}

/// A piece occupying a square.
#[derive(Debug, Clone, Copy, PartialEq, Eq, Structural)]
pub struct Piece {
    pub piece_type: PieceType,
    pub owner: Player,
    pub has_moved: bool,
}

impl Piece {
    /// The piece as it stands after a turn ends: a pawn's double-advance
    /// counter ticks up (stopping at the counter's maximum; only the value 1
    /// is ever consulted), all else is unchanged.
    pub open spec fn spec_post_turn(self) -> Piece {
        match self.piece_type {
            PieceType::Pawn { turns_since_double_advance: Some(t) } => Piece {
                piece_type: PieceType::Pawn {
                    turns_since_double_advance: Some(if t < i32::MAX { (t + 1) as i32 } else { t }),
                },
                ..self
            },
            _ => self,
        }
    }

    /// Advance the pawn double-advance counter at the end of a turn.
    pub fn post_turn(&mut self)
        ensures
            *final(self) == old(self).spec_post_turn(),
    {
        match &mut self.piece_type {
            PieceType::Pawn { turns_since_double_advance: Some(t) } => {
                if *t < i32::MAX {
                    *t = *t + 1;
                }
            },
            _ => {},
        }
    }
}

/// A piece kind as it appears in a submitted board setup: a plain kind,
/// before any game bookkeeping attaches to it.
#[derive(Debug, Clone, Copy, PartialEq, Eq, Structural)]
pub enum SetupPieceType {
    King,
    Queen,
    Castle,
    Bishop,
    Knight,
    Pawn,
}

impl SetupPieceType {
    /// The point value a kind contributes to a setup's budget.
    pub open spec fn spec_setup_value(self) -> i32 {
        match self {
            SetupPieceType::King => 400,
            SetupPieceType::Queen => 900,
            SetupPieceType::Castle => 500,
            SetupPieceType::Bishop => 300,
            SetupPieceType::Knight => 300,
            SetupPieceType::Pawn => 100,
        }
    }

    #[verifier::when_used_as_spec(spec_setup_value)]
    pub fn setup_value(self) -> (v: i32)
        ensures
            v == self.spec_setup_value(),
    {
        match self {
            SetupPieceType::King => 400,
            SetupPieceType::Queen => 900,
            SetupPieceType::Castle => 500,
            SetupPieceType::Bishop => 300,
            SetupPieceType::Knight => 300,
            SetupPieceType::Pawn => 100,
        }
    }

    /// The piece this kind places on the board at the start of a game.
    pub open spec fn spec_to_piece(self, owner: Player) -> Piece {
        Piece { piece_type: self.spec_piece_type(), owner, has_moved: false }
    }

    pub open spec fn spec_piece_type(self) -> PieceType {
        match self {
            SetupPieceType::King => PieceType::King,
            SetupPieceType::Queen => PieceType::Queen,
            SetupPieceType::Castle => PieceType::Castle,
            SetupPieceType::Bishop => PieceType::Bishop,
            SetupPieceType::Knight => PieceType::Knight,
            SetupPieceType::Pawn => PieceType::Pawn { turns_since_double_advance: None },
        }
    }

    pub fn to_piece(self, owner: Player) -> (p: Piece)
        ensures
            p == self.spec_to_piece(owner),
    {
        let piece_type = match self {
            SetupPieceType::King => PieceType::King,
            SetupPieceType::Queen => PieceType::Queen,
            SetupPieceType::Castle => PieceType::Castle,
            SetupPieceType::Bishop => PieceType::Bishop,
            SetupPieceType::Knight => PieceType::Knight,
            SetupPieceType::Pawn => PieceType::Pawn { turns_since_double_advance: None },
        };
        Piece { piece_type, owner, has_moved: false }
    }
}

} // verus!
