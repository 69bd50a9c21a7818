//! Pieces as plain values: type, color, square and the slot they keep in
//! their side's list.

use crate::utils::Position;
use vstd::prelude::*;

verus! {

#[derive(Copy, Clone, Debug, PartialEq, Eq, Hash, Structural)]
pub enum Color {
    White,
    Black,
}

#[derive(Copy, Clone, Debug, PartialEq, Eq, Hash, Structural)]
pub enum Type {
    Pawn,
    Bishop,
    Knight,
    Rook,
    Queen,
    King,
}

pub type PieceIndex = u8;

#[derive(Copy, Clone, Debug, PartialEq, Eq, Structural)]
pub struct Piece {
    pub t: Type,
    pub position: Position,
    pub index: PieceIndex,
    pub color: Color,
}

/// The smaller of a coordinate's distances to the two edges of the board.
pub open spec fn edge_distance(c: int) -> int {
    if c <= 7 - c {
        c
    } else {
        7 - c
    }
}

impl Color {
    pub open spec fn spec_other(self) -> Color {
        match self {
            Color::White => Color::Black,
            Color::Black => Color::White,
        }
    }

    /// The opposing side.
    #[verifier::when_used_as_spec(spec_other)]
    pub fn other(self) -> (r: Color)
        ensures
            r == self.spec_other(),
    {
        match self {
            Color::White => Color::Black,
            Color::Black => Color::White,
        }
    }
}

impl Type {
    /// The material value of a piece of this type.
    pub open spec fn base(self) -> int {
        match self {
            Type::Pawn => 100,
            Type::Bishop => 300,
            Type::Knight => 300,
            Type::Rook => 500,
            Type::Queen => 900,
            Type::King => 10000,
        }
    }

    /// What each step towards the center of the board is worth to a piece of
    /// this type.
    pub open spec fn center_weight(self) -> int {
        match self {
            Type::Pawn => 0,
            Type::Bishop => 0,
            Type::Knight => 5,
            Type::Rook => 5,
            Type::Queen => 5,
            Type::King => 1,
        }
    }
}

impl Piece {
    /// The letter shown for the piece: upper case for White, lower case for
    /// Black.
    pub open spec fn letter(self) -> Seq<char> {
        match (self.color, self.t) {
            (Color::White, Type::Pawn) => "P"@,
            (Color::Black, Type::Pawn) => "p"@,
            (Color::White, Type::Rook) => "R"@,
            (Color::Black, Type::Rook) => "r"@,
            (Color::White, Type::King) => "K"@,
            (Color::Black, Type::King) => "k"@,
            (Color::White, Type::Bishop) => "B"@,
            (Color::Black, Type::Bishop) => "b"@,
            (Color::White, Type::Queen) => "Q"@,
            (Color::Black, Type::Queen) => "q"@,
            (Color::White, Type::Knight) => "N"@,
            (Color::Black, Type::Knight) => "n"@,
        }
    }

    pub fn character(&self) -> (r: &'static str)
        ensures
            r@ == self.letter(),
    {
        match (self.color, self.t) {
            (Color::White, Type::Pawn) => "P",
            (Color::Black, Type::Pawn) => "p",
            (Color::White, Type::Rook) => "R",
            (Color::Black, Type::Rook) => "r",
            (Color::White, Type::King) => "K",
            (Color::Black, Type::King) => "k",
            (Color::White, Type::Bishop) => "B",
            (Color::Black, Type::Bishop) => "b",
            (Color::White, Type::Queen) => "Q",
            (Color::Black, Type::Queen) => "q",
            (Color::White, Type::Knight) => "N",
            (Color::Black, Type::Knight) => "n",
        }
    }

    pub open spec fn spec_moved(&self, position: Position) -> Piece {
        Piece { position, ..*self }
    }

    /// The same piece on another square.
    #[verifier::when_used_as_spec(spec_moved)]
    pub fn moved(&self, position: Position) -> (r: Piece)
        ensures
            r == self.spec_moved(position),
    {
        Piece { t: self.t, position, index: self.index, color: self.color }
    }

    pub fn base_value(&self) -> (r: i16)
        ensures
            r == self.t.base(),
    {
        match self.t {
            Type::Pawn => 100,
            Type::Bishop => 300,
            Type::Knight => 300,
            Type::Rook => 500,
            Type::Queen => 900,
            Type::King => 10000,
        }
    }

    /// The value of the piece where it stands: its material value, and for
    /// rook, queen, knight and king a bonus for each step towards the center.
    pub open spec fn spec_value(self) -> int {
        self.t.base() + (edge_distance(self.position.x as int) + edge_distance(
            self.position.y as int,
        )) * self.t.center_weight()
    }

    /// Whether the bonus for the center can be computed in eight bits.
    pub open spec fn value_fits(self) -> bool {
        self.t.center_weight() != 0 ==> self.position.x >= -120 && self.position.y >= -120
    }

    pub fn value(&self) -> (r: i16)
        requires
            self.value_fits(),
        ensures
            r == self.spec_value(),
            self.position.on_board() ==> 100 <= r <= 10006,
    {
        let pos_value: i16 = match self.t {
            Type::Pawn => 0,
            Type::Rook => (Piece::center_steps(self.position)) * 5,
            Type::King => (Piece::center_steps(self.position)) * 1,
            Type::Bishop => 0,
            Type::Queen => (Piece::center_steps(self.position)) * 5,
            Type::Knight => (Piece::center_steps(self.position)) * 5,
        };
        self.base_value() + pos_value
    }

    /// How many steps a square is away from the edges of the board, files and
    /// ranks added up.
    fn center_steps(position: Position) -> (r: i16)
        requires
            position.x >= -120,
            position.y >= -120,
        ensures
            r == edge_distance(position.x as int) + edge_distance(position.y as int),
            -256 <= r <= 6,
    {
        let dx: i8 = if position.x <= 7 - position.x {
            position.x
        } else {
            7 - position.x
        };
        let dy: i8 = if position.y <= 7 - position.y {
            position.y
        } else {
            7 - position.y
        };
        dx as i16 + dy as i16
    }
}

} // verus!
