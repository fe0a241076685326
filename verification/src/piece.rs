//! Piece kinds, colors, and their material values.

use vstd::prelude::*;

verus! {

#[derive(Debug, Clone, Copy, PartialEq, Eq, Structural)]
pub enum Color {
    White,
    Black,
}

impl Color {
    /// The other side.
    pub fn opposite(self) -> (r: Color)
        ensures
            r == spec_opposite(self),
    {
        match self {
            Color::White => Color::Black,
            Color::Black => Color::White,
        }
    }
}

pub open spec fn spec_opposite(c: Color) -> Color {
    match c {
        Color::White => Color::Black,
        Color::Black => Color::White,
    }
}

#[derive(Debug, Clone, Copy, PartialEq, Eq, Structural)]
pub enum PieceType {
    Pawn,
    Knight,
    Bishop,
    Rook,
    Queen,
    King,
}

#[derive(Debug, Clone, Copy, PartialEq, Eq, Structural)]
pub struct Piece {
    pub piece_type: PieceType,
    pub color: Color,
}

impl Piece {
    pub fn new(piece_type: PieceType, color: Color) -> (r: Piece)
        ensures
            r == (Piece { piece_type, color }),
    {
        Piece { piece_type, color }
    }
}

/// Swaps a piece's color; the mirrored board holds these.
pub open spec fn spec_flip_piece(p: Piece) -> Piece {
    Piece { piece_type: p.piece_type, color: spec_opposite(p.color) }
}

/// Coarse piece values in pawns, used for capture screening.
pub open spec fn spec_piece_value(t: PieceType) -> int {
    match t {
        PieceType::Pawn => 1,
        PieceType::Knight => 3,
        PieceType::Bishop => 3,
        PieceType::Rook => 5,
        PieceType::Queen => 9,
        PieceType::King => 0,
    }
}

pub fn get_piece_value(piece_type: PieceType) -> (r: i32)
    ensures
        r == spec_piece_value(piece_type),
{
    match piece_type {
        PieceType::Pawn => 1,
        PieceType::Knight => 3,
        PieceType::Bishop => 3,
        PieceType::Rook => 5,
        PieceType::Queen => 9,
        PieceType::King => 0,
    }
}

/// Centipawn piece values, used by the static exchange estimate.
pub open spec fn spec_piece_static_value(t: PieceType) -> int {
    match t {
        PieceType::Pawn => 100,
        PieceType::Knight => 325,
        PieceType::Bishop => 325,
        PieceType::Rook => 500,
        PieceType::Queen => 900,
        PieceType::King => 20000,
    }
}

pub fn get_piece_static_value(piece_type: PieceType) -> (r: i32)
    ensures
        r == spec_piece_static_value(piece_type),
{
    match piece_type {
        PieceType::Pawn => 100,
        PieceType::Knight => 325,
        PieceType::Bishop => 325,
        PieceType::Rook => 500,
        PieceType::Queen => 900,
        PieceType::King => 20000,
    }
}

} // verus!
