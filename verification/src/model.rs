//! The mathematical model of the board: what it holds, when its two indexes
//! agree, and what applying or reverting a move does to it.

use crate::board2::{Action, Move, MoveFlags};
use crate::piece2::{on_board, Color, Piece, PieceRef, PieceView, Position, Type};
use vstd::prelude::*;

verus! {

/// The contents of a board: the square index, the piece store and the
/// castling rights of both sides.
pub struct BoardView {
    /// For each of the 64 squares, the reference to the piece standing on it.
    pub squares: Seq<PieceRef>,
    /// The 32 piece slots: White's sixteen, then Black's.
    pub pieces: Seq<Piece>,
    /// How many of White's slots have been handed out.
    pub used_white: int,
    /// How many of Black's slots have been handed out.
    pub used_black: int,
    pub white_flags: MoveFlags,
    pub black_flags: MoveFlags,
}

/// The color whose pieces live in slot `s` of the store.
pub open spec fn slot_color(s: int) -> Color {
    if s < 16 {
        Color::White
    } else {
        Color::Black
    }
}

/// The reference that names slot `s` of the store.
pub open spec fn slot_ref(s: int) -> PieceRef {
    PieceRef::spec_new(slot_color(s), s % 16)
}

/// The rank on which a side's king and rooks start.
pub open spec fn home_row(color: Color) -> int {
    match color {
        Color::White => 0,
        Color::Black => 7,
    }
}

/// The direction in which a side's pawns advance.
pub open spec fn forward(color: Color) -> int {
    match color {
        Color::White => 1,
        Color::Black => -1,
    }
}

/// The index of the square in file `x` and rank `y`.
pub open spec fn sq(x: int, y: int) -> int {
    x + 8 * y
}

impl BoardView {
    pub open spec fn well_shaped(self) -> bool {
        &&& self.squares.len() == 64
        &&& self.pieces.len() == 32
        &&& 0 <= self.used_white <= 16
        &&& 0 <= self.used_black <= 16
    }

    /// How many slots of the given color have been handed out.
    pub open spec fn used(self, color: Color) -> int {
        match color {
            Color::White => self.used_white,
            Color::Black => self.used_black,
        }
    }

    /// The castling rights a side has used up.
    pub open spec fn flags(self, color: Color) -> MoveFlags {
        match color {
            Color::White => self.white_flags,
            Color::Black => self.black_flags,
        }
    }

    pub open spec fn with_flags(self, color: Color, flags: MoveFlags) -> BoardView {
        match color {
            Color::White => BoardView { white_flags: flags, ..self },
            Color::Black => BoardView { black_flags: flags, ..self },
        }
    }

    /// The reference stored for the square in file `x` and rank `y`.
    pub open spec fn ref_at(self, x: int, y: int) -> PieceRef {
        self.squares[sq(x, y)]
    }

    /// Whether a piece stands on the square in file `x` and rank `y`.
    pub open spec fn occupied(self, x: int, y: int) -> bool {
        self.ref_at(x, y)@.active
    }

    /// The piece a reference names.
    pub open spec fn piece(self, r: PieceRef) -> Piece {
        self.pieces[r@.flat()]
    }

    /// A slot agrees with the square index: a slot that was handed out holds
    /// a piece of its color, any other holds no piece in play, and the
    /// square that a piece in play claims refers back to it.
    pub open spec fn slot_ok(self, s: int) -> bool {
        let p = self.pieces[s];
        &&& p.wf()
        &&& p@.position.wf()
        &&& if s % 16 < self.used(slot_color(s)) {
            p@.color == slot_color(s)
        } else {
            !p@.active
        }
        &&& p@.active ==> self.squares[p@.position@] == slot_ref(s)
    }

    /// A square agrees with the piece store: it is either empty, or refers to
    /// a piece in play that stands on it.
    pub open spec fn square_ok(self, q: int) -> bool {
        let r = self.squares[q];
        if r@.active {
            &&& r.wf()
            &&& self.piece(r)@.active
            &&& self.piece(r)@.position@ == q
        } else {
            r == PieceRef::spec_null()
        }
    }

    /// The dual-index invariant: the piece store and the square index agree.
    pub open spec fn wf(self) -> bool {
        &&& self.well_shaped()
        &&& forall|s: int| 0 <= s < 32 ==> #[trigger] self.slot_ok(s)
        &&& forall|q: int| 0 <= q < 64 ==> #[trigger] self.square_ok(q)
    }

    /// What a consistency check of the two indexes looks at: every piece in
    /// play is referred back to by the square it claims, and every square
    /// that refers to a piece is the square that piece claims.
    pub open spec fn consistent(self) -> bool {
        &&& forall|s: int|
            0 <= s < 32 && (#[trigger] self.pieces[s])@.active ==> {
                &&& self.pieces[s]@.position.wf()
                &&& self.squares[self.pieces[s]@.position@] == slot_ref(s)
            }
        &&& forall|q: int|
            0 <= q < 64 && (#[trigger] self.squares[q])@.active ==> self.piece(
                self.squares[q],
            )@.position@ == q
    }

    /// The empty board.
    pub open spec fn empty() -> BoardView {
        BoardView {
            squares: Seq::new(64, |q: int| PieceRef::spec_null()),
            pieces: Seq::new(32, |s: int| Piece::spec_null()),
            used_white: 0,
            used_black: 0,
            white_flags: MoveFlags::spec_empty(),
            black_flags: MoveFlags::spec_empty(),
        }
    }

    /// The slot the next piece of the given color goes to.
    pub open spec fn next_slot(self, color: Color) -> int {
        self.used(color) + 16 * color.bit()
    }

    /// The board after a new piece was put on a square.
    pub open spec fn place(self, color: Color, kind: Type, position: Position) -> BoardView {
        let piece = Piece::make(PieceView { kind, color, active: true, position });
        let placed = BoardView {
            squares: self.squares.update(
                position@,
                PieceRef::spec_new(color, self.used(color)),
            ),
            pieces: self.pieces.update(self.next_slot(color), piece),
            ..self
        };
        match color {
            Color::White => BoardView { used_white: self.used_white + 1, ..placed },
            Color::Black => BoardView { used_black: self.used_black + 1, ..placed },
        }
    }

    /// The piece standing on a square, if there is one.
    pub open spec fn piece_at(self, position: Position) -> Option<Piece> {
        let r = self.squares[position@];
        if r@.active {
            Some(self.piece(r))
        } else {
            None
        }
    }
}

/// How moves change the board.
impl BoardView {
    pub open spec fn set_square(self, position: Position, r: PieceRef) -> BoardView {
        BoardView { squares: self.squares.update(position@, r), ..self }
    }

    pub open spec fn set_piece(self, r: PieceRef, p: Piece) -> BoardView {
        BoardView { pieces: self.pieces.update(r@.flat(), p), ..self }
    }

    /// The piece `r` goes from `from` to `to`, which leaves `from` empty.
    pub open spec fn relocate(self, r: PieceRef, from: Position, to: Position) -> BoardView {
        self.set_square(to, r).set_square(from, PieceRef::spec_null()).set_piece(
            r,
            self.piece(r).with_position(to),
        )
    }

    /// Whatever stands on `from` goes to `to`.
    pub open spec fn slide(self, from: Position, to: Position) -> BoardView {
        self.relocate(self.squares[from@], from, to)
    }

    /// The piece `r` takes `target`: it stands on the target's square, and
    /// the target leaves play, keeping as its square the one the taker came
    /// from.
    pub open spec fn take(self, r: PieceRef, target: PieceRef) -> BoardView {
        let start = self.piece(r)@.position;
        let end = self.piece(target)@.position;
        self.set_piece(r, self.piece(r).with_position(end)).set_piece(
            target,
            self.piece(target).with_position(start).with_active(false),
        ).set_square(end, r).set_square(start, PieceRef::spec_null())
    }

    /// The inverse of `take`: the taker goes back to the square the target
    /// kept for it, and the target is in play again on its own square.
    pub open spec fn untake(self, r: PieceRef, target: PieceRef) -> BoardView {
        let end = self.piece(r)@.position;
        let start = self.piece(target)@.position;
        self.set_piece(r, self.piece(r).with_position(start)).set_piece(
            target,
            self.piece(target).with_position(end).with_active(true),
        ).set_square(start, r).set_square(end, target)
    }

    /// The piece `r` becomes a piece of type `kind`.
    pub open spec fn retype(self, r: PieceRef, kind: Type) -> BoardView {
        self.set_piece(r, self.piece(r).with_kind(kind))
    }

    /// The flags are added to those a side has used up.
    pub open spec fn or_flags(self, color: Color, flags: MoveFlags) -> BoardView {
        self.with_flags(color, self.flags(color).spec_union(flags))
    }

    /// The flags are toggled in those a side has used up.
    pub open spec fn xor_flags(self, color: Color, flags: MoveFlags) -> BoardView {
        self.with_flags(color, self.flags(color).spec_toggle(flags))
    }

    /// King and rook of a side castle, to the queen's side if the flags name
    /// the queen's rook and to the king's side otherwise.
    pub open spec fn castle(self, color: Color, flags: MoveFlags) -> BoardView {
        let y = home_row(color);
        if flags.queen_rook {
            self.slide(Position::at(0, y), Position::at(3, y)).slide(
                Position::at(4, y),
                Position::at(2, y),
            )
        } else {
            self.slide(Position::at(7, y), Position::at(5, y)).slide(
                Position::at(4, y),
                Position::at(6, y),
            )
        }
    }

    /// The inverse of `castle`.
    pub open spec fn uncastle(self, color: Color, flags: MoveFlags) -> BoardView {
        let y = home_row(color);
        if flags.queen_rook {
            self.slide(Position::at(3, y), Position::at(0, y)).slide(
                Position::at(2, y),
                Position::at(4, y),
            )
        } else {
            self.slide(Position::at(5, y), Position::at(7, y)).slide(
                Position::at(6, y),
                Position::at(4, y),
            )
        }
    }

    /// The board after a move.
    pub open spec fn apply(self, m: Move) -> BoardView {
        let r = m.piece_ref;
        let color = r@.color;
        match m.action {
            Action::Move { start, end } => self.relocate(r, start, end).or_flags(color, m.flags),
            Action::Capture { target } => self.take(r, target).or_flags(color, m.flags),
            Action::Promote { t, end } => self.relocate(r, self.piece(r)@.position, end).retype(
                r,
                t,
            ),
            Action::CaptureAndPromote { target, t } => self.take(r, target).retype(r, t),
            Action::Castle => self.castle(color, m.flags).or_flags(color, m.flags),
            Action::NoAction => self,
            Action::Evaluate => self,
        }
    }

    /// The board before a move, given the board after it.
    pub open spec fn revert(self, m: Move) -> BoardView {
        let r = m.piece_ref;
        let color = r@.color;
        match m.action {
            Action::Move { start, end } => self.relocate(r, end, start).xor_flags(color, m.flags),
            Action::Capture { target } => self.untake(r, target).xor_flags(color, m.flags),
            Action::Promote { t, end } => self.relocate(
                r,
                end,
                end.shifted(0, -forward(color)),
            ).retype(r, Type::Pawn),
            Action::CaptureAndPromote { target, t } => self.untake(r, target).retype(
                r,
                Type::Pawn,
            ),
            Action::Castle => self.uncastle(color, m.flags).xor_flags(color, m.flags),
            Action::NoAction => self,
            Action::Evaluate => self,
        }
    }

    /// The reference names a piece that is in play.
    pub open spec fn in_play(self, r: PieceRef) -> bool {
        &&& r.wf()
        &&& r@.active
        &&& self.piece(r)@.active
    }

    /// The reference names a piece that was taken.
    pub open spec fn taken(self, r: PieceRef) -> bool {
        &&& r.wf()
        &&& r@.active
        &&& r@.slot < self.used(r@.color)
        &&& !self.piece(r)@.active
    }

    /// Whether a square is empty.
    pub open spec fn vacant(self, position: Position) -> bool {
        position.wf() && !self.squares[position@]@.active
    }

    /// Whether a side can castle to the side the flags name: its king stands
    /// on the e-file of its home rank, one of its rooks in the corner, and
    /// the squares between them are empty.
    pub open spec fn can_castle(self, king: PieceRef, flags: MoveFlags) -> bool {
        let color = king@.color;
        let y = home_row(color);
        let corner = if flags.queen_rook {
            self.ref_at(0, y)
        } else {
            self.ref_at(7, y)
        };
        &&& flags.queen_rook || flags.king_rook
        &&& self.ref_at(4, y) == king
        &&& self.piece(king)@.kind == Type::King
        &&& corner@.active
        &&& corner@.color == color
        &&& self.piece(corner)@.kind == Type::Rook
        &&& if flags.queen_rook {
            !self.occupied(1, y) && !self.occupied(2, y) && !self.occupied(3, y)
        } else {
            !self.occupied(5, y) && !self.occupied(6, y)
        }
    }

    /// Whether a castling of this side can be taken back: king and rook
    /// stand where castling put them, and the squares they came from are
    /// empty.
    pub open spec fn can_uncastle(self, king: PieceRef, flags: MoveFlags) -> bool {
        let color = king@.color;
        let y = home_row(color);
        &&& flags.queen_rook || flags.king_rook
        &&& if flags.queen_rook {
            &&& self.ref_at(2, y) == king
            &&& self.occupied(3, y)
            &&& !self.occupied(0, y)
            &&& !self.occupied(4, y)
        } else {
            &&& self.ref_at(6, y) == king
            &&& self.occupied(5, y)
            &&& !self.occupied(7, y)
            &&& !self.occupied(4, y)
        }
    }

    /// Whether a move can be made on this board: its piece is in play, and
    /// what the move speaks of is there.
    pub open spec fn can_apply(self, m: Move) -> bool {
        let r = m.piece_ref;
        let color = r@.color;
        &&& self.in_play(r)
        &&& match m.action {
            Action::Move { start, end } => {
                &&& start == self.piece(r)@.position
                &&& self.vacant(end)
            },
            Action::Capture { target } => {
                &&& self.in_play(target)
                &&& target@.color != color
            },
            Action::Promote { t, end } => {
                &&& self.piece(r)@.kind == Type::Pawn
                &&& self.vacant(end)
                &&& on_board(end.col(), end.row() - forward(color))
                &&& self.piece(r)@.position == end.shifted(0, -forward(color))
            },
            Action::CaptureAndPromote { target, t } => {
                &&& self.piece(r)@.kind == Type::Pawn
                &&& self.in_play(target)
                &&& target@.color != color
            },
            Action::Castle => self.can_castle(r, m.flags),
            Action::NoAction => false,
            Action::Evaluate => false,
        }
    }

    /// Whether a move can be played in a game: it can be made on the board,
    /// and it carries no castling flag that its side has already used up, so
    /// that taking it back clears exactly the flags it set.
    pub open spec fn playable(self, m: Move) -> bool {
        &&& self.can_apply(m)
        &&& self.flags(m.piece_ref@.color).disjoint(m.flags)
    }

    /// Whether a move can be taken back on this board: the board looks as
    /// the move left it.
    pub open spec fn can_revert(self, m: Move) -> bool {
        let r = m.piece_ref;
        let color = r@.color;
        &&& self.in_play(r)
        &&& match m.action {
            Action::Move { start, end } => {
                &&& end == self.piece(r)@.position
                &&& self.vacant(start)
            },
            Action::Capture { target } => {
                &&& self.taken(target)
                &&& target@.color != color
                &&& self.vacant(self.piece(target)@.position)
            },
            Action::Promote { t, end } => {
                &&& end == self.piece(r)@.position
                &&& on_board(end.col(), end.row() - forward(color))
                &&& self.vacant(end.shifted(0, -forward(color)))
            },
            Action::CaptureAndPromote { target, t } => {
                &&& self.taken(target)
                &&& target@.color != color
                &&& self.vacant(self.piece(target)@.position)
            },
            Action::Castle => self.can_uncastle(r, m.flags),
            Action::NoAction => false,
            Action::Evaluate => false,
        }
    }
}

} // verus!
