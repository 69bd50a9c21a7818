//! Compact value types of the board: squares, pieces and piece references.
//!
//! Each type packs its data into one or two bytes. What the bits mean is stated
//! once, by a view, and every operation is specified over that view. The
//! facts that tie the views to the values are gathered in `group_packing`.

use vstd::prelude::*;

verus! {

#[derive(Copy, Clone, Debug, PartialEq, Eq, Structural)]
pub enum Type {
    Pawn,
    Rook,
    Knight,
    Bishop,
    Queen,
    King,
}

#[derive(Copy, Clone, Debug, PartialEq, Eq, Structural)]
pub enum Color {
    White,
    Black,
}

impl Color {
    pub open spec fn spec_other(self) -> Color {
        match self {
            Color::White => Color::Black,
            Color::Black => Color::White,
        }
    }

    /// The opposing side.
    #[verifier::when_used_as_spec(spec_other)]
    pub fn other(self) -> (r: Color)
        ensures
            r == self.spec_other(),
    {
        match self {
            Color::White => Color::Black,
            Color::Black => Color::White,
        }
    }

    /// 0 for White, 1 for Black: the bit a packed piece or reference stores.
    pub open spec fn bit(self) -> int {
        match self {
            Color::White => 0,
            Color::Black => 1,
        }
    }

    pub open spec fn spec_name(self) -> Seq<char> {
        match self {
            Color::White => "White"@,
            Color::Black => "Black"@,
        }
    }

    /// The color's English name.
    pub fn name(self) -> (r: &'static str)
        ensures
            r@ == self.spec_name(),
    {
        match self {
            Color::White => "White",
            Color::Black => "Black",
        }
    }
}

impl Type {
    /// The three-bit code a packed piece stores for this type.
    pub open spec fn spec_code(self) -> int {
        match self {
            Type::Pawn => 0,
            Type::Rook => 1,
            Type::Knight => 2,
            Type::Bishop => 3,
            Type::Queen => 4,
            Type::King => 5,
        }
    }

    pub fn code(self) -> (r: u8)
        ensures
            r == self.spec_code(),
    {
        match self {
            Type::Pawn => 0,
            Type::Rook => 1,
            Type::Knight => 2,
            Type::Bishop => 3,
            Type::Queen => 4,
            Type::King => 5,
        }
    }

    /// Decoding table for the three-bit code; codes above 5 read as King.
    pub open spec fn spec_from_code(c: int) -> Type {
        if c == 0 {
            Type::Pawn
        } else if c == 1 {
            Type::Rook
        } else if c == 2 {
            Type::Knight
        } else if c == 3 {
            Type::Bishop
        } else if c == 4 {
            Type::Queen
        } else {
            Type::King
        }
    }

    pub fn from_code(c: u8) -> (r: Type)
        ensures
            r == Type::spec_from_code(c as int),
    {
        match c {
            0 => Type::Pawn,
            1 => Type::Rook,
            2 => Type::Knight,
            3 => Type::Bishop,
            4 => Type::Queen,
            _ => Type::King,
        }
    }

    /// Material value of a piece of this type.
    pub open spec fn spec_value(self) -> int {
        match self {
            Type::Pawn => 100,
            Type::Bishop => 300,
            Type::Knight => 300,
            Type::Rook => 500,
            Type::Queen => 900,
            Type::King => 10000,
        }
    }

    pub fn value(self) -> (r: i32)
        ensures
            r == self.spec_value(),
    {
        match self {
            Type::Pawn => 100,
            Type::Bishop => 300,
            Type::Knight => 300,
            Type::Rook => 500,
            Type::Queen => 900,
            Type::King => 10000,
        }
    }

    pub open spec fn spec_name(self) -> Seq<char> {
        match self {
            Type::Pawn => "Pawn"@,
            Type::Rook => "Rook"@,
            Type::Knight => "Knight"@,
            Type::Bishop => "Bishop"@,
            Type::Queen => "Queen"@,
            Type::King => "King"@,
        }
    }

    /// The type's English name.
    pub fn name(self) -> (r: &'static str)
        ensures
            r@ == self.spec_name(),
    {
        match self {
            Type::Pawn => "Pawn",
            Type::Rook => "Rook",
            Type::Knight => "Knight",
            Type::Bishop => "Bishop",
            Type::Queen => "Queen",
            Type::King => "King",
        }
    }
}

/// The letter shown for a piece: upper case for White, lower case for Black.
pub open spec fn piece_letter(color: Color, kind: Type) -> char {
    match (color, kind) {
        (Color::White, Type::Pawn) => 'P',
        (Color::White, Type::Rook) => 'R',
        (Color::White, Type::Knight) => 'N',
        (Color::White, Type::Bishop) => 'B',
        (Color::White, Type::Queen) => 'Q',
        (Color::White, Type::King) => 'K',
        (Color::Black, Type::Pawn) => 'p',
        (Color::Black, Type::Rook) => 'r',
        (Color::Black, Type::Knight) => 'n',
        (Color::Black, Type::Bishop) => 'b',
        (Color::Black, Type::Queen) => 'q',
        (Color::Black, Type::King) => 'k',
    }
}

/// A square of the 8x8 board, stored as the flat index `y * 8 + x`.
#[derive(Copy, Clone, Debug, PartialEq, Eq, PartialOrd, Structural)]
pub struct Position {
    index: u8,
}

/// Whether `(x, y)` names a square of the board.
pub open spec fn on_board(x: int, y: int) -> bool {
    0 <= x < 8 && 0 <= y < 8
}

impl Position {
    /// The flat index of the square.
    pub closed spec fn view(&self) -> int {
        self.index as int
    }

    /// A position is well formed when it names one of the 64 squares.
    pub open spec fn wf(&self) -> bool {
        0 <= self@ < 64
    }

    /// The file, 0 for `a` to 7 for `h`.
    pub open spec fn col(&self) -> int {
        self@ % 8
    }

    /// The rank, 0 for the first rank to 7 for the eighth.
    pub open spec fn row(&self) -> int {
        self@ / 8
    }

    /// The square in file `x` and rank `y`.
    pub closed spec fn at(x: int, y: int) -> Position {
        Position { index: (x + 8 * y) as u8 }
    }

    /// The square `(dx, dy)` away from this one.
    pub open spec fn shifted(&self, dx: int, dy: int) -> Position {
        Position::at(self.col() + dx, self.row() + dy)
    }

    /// `at` names the square whose index is `x + 8 * y`.
    pub broadcast proof fn lemma_at(x: int, y: int)
        requires
            on_board(x, y),
        ensures
            (#[trigger] Position::at(x, y))@ == x + 8 * y,
            Position::at(x, y).wf(),
            Position::at(x, y).col() == x,
            Position::at(x, y).row() == y,
    {
    }

    /// Two positions with the same index are the same position.
    pub broadcast proof fn lemma_same_square(a: Position, b: Position)
        requires
            #[trigger] a@ == #[trigger] b@,
        ensures
            a == b,
    {
    }

    /// A well-formed position is the square at its own file and rank.
    pub proof fn lemma_at_own_coordinates(self)
        requires
            self.wf(),
        ensures
            Position::at(self.col(), self.row()) == self,
    {
    }

    /// Whether the position names a square of the board.
    pub fn valid(&self) -> (r: bool)
        ensures
            r == self.wf(),
    {
        self.index < 64
    }

    pub fn zero() -> (r: Position)
        ensures
            r@ == 0,
            r.wf(),
    {
        Position { index: 0 }
    }

    pub fn index(&self) -> (r: usize)
        ensures
            r == self@,
    {
        self.index as usize
    }

    pub fn new(x: i8, y: i8) -> (r: Position)
        requires
            on_board(x as int, y as int),
        ensures
            r == Position::at(x as int, y as int),
            r@ == x + 8 * y,
            r.wf(),
    {
        Position { index: (x + y * 8) as u8 }
    }

    pub fn x(&self) -> (r: i8)
        ensures
            r == self.col(),
    {
        let v: u8 = self.index;
        assert(v & 0b111 == v % 8) by (bit_vector);
        (self.index & 0b111) as i8
    }

    pub fn y(&self) -> (r: i8)
        ensures
            r == self.row() % 8,
            self.wf() ==> r == self.row(),
    {
        let v: u8 = self.index;
        assert((v & 0b111000) >> 3 == (v / 8) % 8) by (bit_vector);
        ((self.index & 0b111000) >> 3) as i8
    }

    /// File and rank together.
    pub fn xy(&self) -> (r: (i8, i8))
        ensures
            r.0 == self.col(),
            r.1 == self.row() % 8,
            self.wf() ==> r.1 == self.row(),
    {
        (self.x(), self.y())
    }

    /// The square `(dx, dy)` away, which must be on the board.
    pub fn dp(&self, dx: i8, dy: i8) -> (r: Position)
        requires
            self.wf(),
            on_board(self.col() + dx, self.row() + dy),
        ensures
            r == self.shifted(dx as int, dy as int),
            r@ == self@ + dx + 8 * dy,
            r.wf(),
    {
        let x: i16 = self.x() as i16 + dx as i16;
        let y: i16 = self.y() as i16 + dy as i16;
        Position { index: (x + y * 8) as u8 }
    }

    /// The file letter of the square, `a` to `h`.
    pub open spec fn file_char(&self) -> char {
        let x = self.col();
        if x == 0 {
            'a'
        } else if x == 1 {
            'b'
        } else if x == 2 {
            'c'
        } else if x == 3 {
            'd'
        } else if x == 4 {
            'e'
        } else if x == 5 {
            'f'
        } else if x == 6 {
            'g'
        } else {
            'h'
        }
    }

    /// The rank digit of the square, `1` to `8`.
    pub open spec fn rank_char(&self) -> char {
        let y = self.row();
        if y == 0 {
            '1'
        } else if y == 1 {
            '2'
        } else if y == 2 {
            '3'
        } else if y == 3 {
            '4'
        } else if y == 4 {
            '5'
        } else if y == 5 {
            '6'
        } else if y == 6 {
            '7'
        } else {
            '8'
        }
    }

    /// The square's name in algebraic notation, such as `d5`.
    pub open spec fn name(&self) -> Seq<char> {
        seq![self.file_char(), self.rank_char()]
    }

    /// Appends the square's algebraic name to `out`.
    pub fn write_name(&self, out: &mut Vec<char>)
        requires
            self.wf(),
        ensures
            final(out)@ == old(out)@ + self.name(),
    {
        let file: char = match self.x() {
            0 => 'a',
            1 => 'b',
            2 => 'c',
            3 => 'd',
            4 => 'e',
            5 => 'f',
            6 => 'g',
            _ => 'h',
        };
        let rank: char = match self.y() {
            0 => '1',
            1 => '2',
            2 => '3',
            3 => '4',
            4 => '5',
            5 => '6',
            6 => '7',
            _ => '8',
        };
        out.push(file);
        out.push(rank);
        assert(out@ =~= old(out)@ + self.name());
    }
}

/// What a packed piece holds.
pub struct PieceView {
    pub kind: Type,
    pub color: Color,
    /// Whether the piece is still in play.
    pub active: bool,
    /// The square the piece stands on, or stood on when it was taken.
    pub position: Position,
}

/// A piece: three bits of type, one of color and one that says whether the
/// piece is still in play, followed by the square it stands on.
#[derive(Copy, Clone, Debug, PartialEq, Eq, Structural)]
pub struct Piece {
    data: u8,
    pub position: Position,
}

impl Piece {
    pub closed spec fn view(&self) -> PieceView {
        PieceView {
            kind: Type::spec_from_code((self.data & 0b111) as int),
            color: if (self.data >> 3) & 0b1 == 1 {
                Color::Black
            } else {
                Color::White
            },
            active: (self.data & 0b10000) != 0,
            position: self.position,
        }
    }

    /// The packed byte holds a valid type code and nothing beyond its five bits.
    pub closed spec fn wf(&self) -> bool {
        self.data < 32 && (self.data & 0b111) < 6
    }

    /// The piece with the given contents.
    pub closed spec fn make(v: PieceView) -> Piece {
        Piece {
            data: (v.kind.spec_code() + 8 * v.color.bit() + if v.active {
                16int
            } else {
                0int
            }) as u8,
            position: v.position,
        }
    }

    /// This piece on another square.
    pub open spec fn with_position(self, position: Position) -> Piece {
        Piece::make(PieceView { position, ..self@ })
    }

    /// This piece in or out of play.
    pub open spec fn with_active(self, active: bool) -> Piece {
        Piece::make(PieceView { active, ..self@ })
    }

    /// This piece as another type.
    pub open spec fn with_kind(self, kind: Type) -> Piece {
        Piece::make(PieceView { kind, ..self@ })
    }

    /// `make` builds a well-formed piece with exactly the contents asked for.
    #[verifier::rlimit(50)]
    pub broadcast proof fn lemma_make(v: PieceView)
        ensures
            (#[trigger] Piece::make(v))@ == v,
            Piece::make(v).wf(),
    {
        let d: u8 = (v.kind.spec_code() + 8 * v.color.bit() + if v.active {
            16int
        } else {
            0int
        }) as u8;
        assert(d < 32 ==> (d & 0b111) == d % 8 && (d >> 3) & 0b1 == (d / 8) % 2 && ((d & 0b10000)
            != 0) == (d >= 16)) by (bit_vector);
    }

    /// A well-formed piece is determined by its contents.
    pub broadcast proof fn lemma_make_own(p: Piece)
        requires
            p.wf(),
        ensures
            #[trigger] Piece::make(p@) == p,
    {
        let d: u8 = p.data;
        assert(d < 32 ==> (d & 0b111) == d % 8 && (d >> 3) & 0b1 == (d / 8) % 2 && ((d & 0b10000)
            != 0) == (d >= 16)) by (bit_vector);
    }

    /// The filler of an unused slot: a white pawn out of play on the first square.
    pub open spec fn spec_null() -> Piece {
        Piece::make(
            PieceView {
                kind: Type::Pawn,
                color: Color::White,
                active: false,
                position: Position::at(0, 0),
            },
        )
    }

    /// The square the piece stands on.
    pub fn pos(&self) -> (r: Position)
        ensures
            r == self@.position,
    {
        self.position
    }

    pub fn t(&self) -> (r: Type)
        ensures
            r == self@.kind,
    {
        Type::from_code(self.data & 0b111)
    }

    pub fn color(&self) -> (r: Color)
        ensures
            r == self@.color,
    {
        if (self.data >> 3) & 0b1 == 1 {
            Color::Black
        } else {
            Color::White
        }
    }

    /// A piece of the given color and type on the given square, not yet in play.
    pub fn new(color: Color, t: Type, position: Position) -> (r: Piece)
        ensures
            r == Piece::make(PieceView { kind: t, color, active: false, position }),
            r@ == (PieceView { kind: t, color, active: false, position }),
            r.wf(),
    {
        proof {
            Piece::lemma_make(PieceView { kind: t, color, active: false, position });
        }
        let c: u8 = match color {
            Color::White => 0,
            Color::Black => 1,
        };
        let k: u8 = t.code();
        assert(k < 6 && c < 2 ==> (c << 3) == 8 * c) by (bit_vector);
        let data: u8 = (c << 3) + k;
        Piece { data, position }
    }

    /// The filler of an unused slot: a white pawn out of play on the first square.
    pub fn null() -> (r: Piece)
        ensures
            r == Piece::spec_null(),
            !r@.active,
            r@.position@ == 0,
            r.wf(),
    {
        broadcast use Position::lemma_at;
        broadcast use Position::lemma_same_square;

        proof {
            Piece::lemma_make(
                PieceView {
                    kind: Type::Pawn,
                    color: Color::White,
                    active: false,
                    position: Position::at(0, 0),
                },
            );
        }

        Piece { data: 0, position: Position::zero() }
    }

    pub fn active(&self) -> (r: bool)
        ensures
            r == self@.active,
    {
        (self.data & 0b10000) != 0
    }

    pub fn set_active(&mut self, active: bool)
        requires
            old(self).wf(),
        ensures
            *final(self) == old(self).with_active(active),
            final(self)@ == (PieceView { active, ..old(self)@ }),
            final(self).wf(),
    {
        proof {
            Piece::lemma_make(PieceView { active, ..self@ });
        }
        let d: u8 = self.data;
        assert(d < 32 ==> (d & 0b111) == d % 8 && (d >> 3) & 0b1 == (d / 8) % 2 && ((d & 0b10000)
            != 0) == (d >= 16) && (d | 0b00010000) == (if d >= 16 {
            d
        } else {
            (d + 16) as u8
        }) && (d & 0b11101111) == (if d >= 16 {
            (d - 16) as u8
        } else {
            d
        })) by (bit_vector);
        if active {
            self.data |= 0b00010000;
        } else {
            self.data &= 0b11101111;
        }
    }

    /// Changes the type of the piece, as a promotion or its reversal does.
    pub fn set_type(&mut self, t: Type)
        requires
            old(self).wf(),
        ensures
            *final(self) == old(self).with_kind(t),
            final(self)@ == (PieceView { kind: t, ..old(self)@ }),
            final(self).wf(),
    {
        proof {
            Piece::lemma_make(PieceView { kind: t, ..self@ });
        }
        let d: u8 = self.data;
        let k: u8 = t.code();
        assert(d < 32 && k < 6 ==> (d & 0b111) == d % 8 && (d >> 3) & 0b1 == (d / 8) % 2 && ((d
            & 0b10000) != 0) == (d >= 16) && ((d & 0b11111000) | k) == (d - d % 8 + k) as u8)
            by (bit_vector);
        self.data = (self.data & 0b11111000) | k;
    }

    /// Moves the piece to another square.
    pub fn set_position(&mut self, position: Position)
        requires
            old(self).wf(),
        ensures
            *final(self) == old(self).with_position(position),
            final(self)@ == (PieceView { position, ..old(self)@ }),
            final(self).wf(),
    {
        proof {
            Piece::lemma_make_own(*self);
            Piece::lemma_make(PieceView { position, ..self@ });
        }
        let d: u8 = self.data;
        assert(d < 32 ==> (d & 0b111) == d % 8 && (d >> 3) & 0b1 == (d / 8) % 2 && ((d & 0b10000)
            != 0) == (d >= 16)) by (bit_vector);
        self.position = position;
    }

    /// The letter shown for this piece on a printed board.
    pub fn char(&self) -> (r: char)
        ensures
            r == piece_letter(self@.color, self@.kind),
    {
        match (self.color(), self.t()) {
            (Color::White, Type::Pawn) => 'P',
            (Color::White, Type::Rook) => 'R',
            (Color::White, Type::Knight) => 'N',
            (Color::White, Type::Bishop) => 'B',
            (Color::White, Type::Queen) => 'Q',
            (Color::White, Type::King) => 'K',
            (Color::Black, Type::Pawn) => 'p',
            (Color::Black, Type::Rook) => 'r',
            (Color::Black, Type::Knight) => 'n',
            (Color::Black, Type::Bishop) => 'b',
            (Color::Black, Type::Queen) => 'q',
            (Color::Black, Type::King) => 'k',
        }
    }
}

/// What a packed piece reference holds.
pub struct RefView {
    /// Whether the reference names a piece at all.
    pub active: bool,
    pub color: Color,
    /// The piece's slot among those of its color, 0 to 15.
    pub slot: int,
}

impl RefView {
    /// The slot's place in the store of all 32 pieces: White first, then Black.
    pub open spec fn flat(self) -> int {
        self.slot + 16 * self.color.bit()
    }
}

/// A stable handle on a piece: four bits of slot, one of color and one that
/// says whether the handle names a piece.
#[derive(Copy, Clone, Debug, PartialEq, Eq, Structural)]
pub struct PieceRef {
    index: u8,
}

impl PieceRef {
    pub closed spec fn view(&self) -> RefView {
        RefView {
            active: (self.index & 0b100000) != 0,
            color: if (self.index >> 4) & 0b1 == 1 {
                Color::Black
            } else {
                Color::White
            },
            slot: (self.index & 0b1111) as int,
        }
    }

    /// The packed byte holds nothing beyond its six bits.
    pub closed spec fn wf(&self) -> bool {
        self.index < 64
    }

    /// The reference with the given contents.
    pub closed spec fn make(v: RefView) -> PieceRef {
        PieceRef {
            index: (v.slot + 16 * v.color.bit() + if v.active {
                32int
            } else {
                0int
            }) as u8,
        }
    }

    /// The reference that names no piece.
    pub open spec fn spec_null() -> PieceRef {
        PieceRef::make(RefView { active: false, color: Color::White, slot: 0 })
    }

    /// The reference to the piece in the given slot of the given color.
    pub open spec fn spec_new(color: Color, slot: int) -> PieceRef {
        PieceRef::make(RefView { active: true, color, slot })
    }

    /// `make` builds a well-formed reference with exactly the contents asked for.
    #[verifier::rlimit(50)]
    pub broadcast proof fn lemma_make(v: RefView)
        requires
            0 <= v.slot < 16,
        ensures
            (#[trigger] PieceRef::make(v))@ == v,
            PieceRef::make(v).wf(),
    {
        let d: u8 = (v.slot + 16 * v.color.bit() + if v.active {
            32int
        } else {
            0int
        }) as u8;
        assert(d < 64 ==> (d & 0b1111) == d % 16 && (d >> 4) & 0b1 == (d / 16) % 2 && ((d
            & 0b100000) != 0) == (d >= 32)) by (bit_vector);
    }

    /// A well-formed reference is determined by its contents.
    pub broadcast proof fn lemma_make_own(r: PieceRef)
        requires
            r.wf(),
        ensures
            #[trigger] PieceRef::make(r@) == r,
            0 <= r@.slot < 16,
    {
        let d: u8 = r.index;
        assert(d < 64 ==> (d & 0b1111) == d % 16 && (d >> 4) & 0b1 == (d / 16) % 2 && ((d
            & 0b100000) != 0) == (d >= 32)) by (bit_vector);
    }

    /// The slot of a reference is always one of the sixteen of its color.
    pub broadcast proof fn lemma_slot_range(r: PieceRef)
        ensures
            0 <= (#[trigger] r@).slot < 16,
    {
        let d: u8 = r.index;
        assert((d & 0b1111) < 16) by (bit_vector);
    }

    /// Whether the packed byte is one that `new` or `null` can have made.
    pub fn valid(&self) -> (r: bool)
        ensures
            r == self.wf(),
    {
        self.index < 64
    }

    /// The piece's place in the store of all 32 pieces.
    pub fn index(&self) -> (r: usize)
        ensures
            r == self@.flat(),
            r < 32,
    {
        let d: u8 = self.index;
        assert((d & 0b11111) == (d & 0b1111) + 16 * ((d >> 4) & 0b1) && (d & 0b11111) < 32 && ((d
            >> 4) & 0b1) < 2) by (bit_vector);
        (self.index & 0b11111) as usize
    }

    pub fn color(&self) -> (r: Color)
        ensures
            r == self@.color,
    {
        if (self.index >> 4) & 0b1 == 1 {
            Color::Black
        } else {
            Color::White
        }
    }

    pub fn active(&self) -> (r: bool)
        ensures
            r == self@.active,
    {
        (self.index & 0b100000) != 0
    }

    pub fn null() -> (r: PieceRef)
        ensures
            r == PieceRef::spec_null(),
            !r@.active,
            r.wf(),
    {
        proof {
            PieceRef::lemma_make(RefView { active: false, color: Color::White, slot: 0 });
        }
        PieceRef { index: 0 }
    }

    pub fn new(color: Color, index: usize) -> (r: PieceRef)
        requires
            index < 16,
        ensures
            r == PieceRef::spec_new(color, index as int),
            r@ == (RefView { active: true, color, slot: index as int }),
            r.wf(),
    {
        proof {
            PieceRef::lemma_make(RefView { active: true, color, slot: index as int });
        }
        let c: u8 = match color {
            Color::White => 0,
            Color::Black => 1,
        };
        let i: u8 = index as u8;
        assert(c < 2 ==> (c << 4) == 16 * c) by (bit_vector);
        assert((0b1u8 << 5) == 32) by (bit_vector);
        PieceRef { index: i + (c << 4) + (0b1 << 5) }
    }

    pub fn set_active(&mut self, active: bool)
        requires
            old(self).wf(),
        ensures
            *final(self) == PieceRef::make(RefView { active, ..old(self)@ }),
            final(self)@ == (RefView { active, ..old(self)@ }),
            final(self).wf(),
    {
        proof {
            PieceRef::lemma_make_own(*self);
            PieceRef::lemma_make(RefView { active, ..self@ });
        }
        let d: u8 = self.index;
        assert(d < 64 ==> (d & 0b1111) == d % 16 && (d >> 4) & 0b1 == (d / 16) % 2 && ((d
            & 0b100000) != 0) == (d >= 32) && (d | 0b00100000) == (if d >= 32 {
            d
        } else {
            (d + 32) as u8
        }) && (d & 0b11011111) == (if d >= 32 {
            (d - 32) as u8
        } else {
            d
        })) by (bit_vector);
        if active {
            self.index |= 0b00100000;
        } else {
            self.index &= 0b11011111;
        }
    }
}

/// What the packed types hold, for proofs that speak of them: `use` this
/// group to have the facts about `Position::at`, `Piece::make` and
/// `PieceRef::make` at hand.
pub broadcast group group_packing {
    Position::lemma_at,
    Position::lemma_same_square,
    Piece::lemma_make,
    Piece::lemma_make_own,
    PieceRef::lemma_make,
    PieceRef::lemma_make_own,
    PieceRef::lemma_slot_range,
}

} // verus!
