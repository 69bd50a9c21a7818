//! The mathematical model of the board that keeps its pieces by value: what
//! it holds, when its cells and its piece lists agree, which moves its
//! pieces have, and what making or unmaking a move does to it.

use crate::board::{Action, Cell, Move};
use crate::piece::{Color, Piece, Type};
use crate::utils::Position;
use vstd::prelude::*;

verus! {

/// How often the king and the two rooks of a side have moved.
pub struct Rights {
    pub king: int,
    pub king_rook: int,
    pub queen_rook: int,
}

/// The contents of a board.
pub struct Layout {
    /// The 64 cells, file by file: the cell of file `x` and rank `y` is the
    /// one at `8 * x + y`.
    pub cells: Seq<Cell>,
    /// White's sixteen piece slots.
    pub white: Seq<Option<Piece>>,
    /// Black's sixteen piece slots.
    pub black: Seq<Option<Piece>>,
    pub used_white: int,
    pub used_black: int,
    /// The moves played, oldest first.
    pub history: Seq<Move>,
    pub white_rights: Rights,
    pub black_rights: Rights,
}

/// The place of a square among the cells.
pub open spec fn cell_index(x: int, y: int) -> int {
    8 * x + y
}

/// Whether `(x, y)` names a square of the board.
pub open spec fn inside(x: int, y: int) -> bool {
    0 <= x < 8 && 0 <= y < 8
}

/// The square in file `x` and rank `y`.
pub open spec fn square(x: int, y: int) -> Position {
    Position { x: x as i8, y: y as i8 }
}

/// The rank on which a side's king and rooks start.
pub open spec fn back_rank(color: Color) -> int {
    match color {
        Color::White => 0,
        Color::Black => 7,
    }
}

/// The direction in which a side's pawns advance.
pub open spec fn ahead(color: Color) -> int {
    match color {
        Color::White => 1,
        Color::Black => -1,
    }
}

/// The counts of moves after a move of the piece, as far as they count for
/// castling: a move of the king counts for the king, and a move of a rook
/// out of a corner of its side's back rank for the rook of that corner.
pub open spec fn counted(r: Rights, piece: Piece, by: int) -> Rights {
    if piece.t == Type::King {
        Rights { king: r.king + by, ..r }
    } else if piece.t == Type::Rook && piece.position == square(0, back_rank(piece.color)) {
        Rights { queen_rook: r.queen_rook + by, ..r }
    } else if piece.t == Type::Rook && piece.position == square(7, back_rank(piece.color)) {
        Rights { king_rook: r.king_rook + by, ..r }
    } else {
        r
    }
}

/// None of the counts is negative.
pub open spec fn counts(r: Rights) -> bool {
    0 <= r.king && 0 <= r.king_rook && 0 <= r.queen_rook
}

/// The most a piece can ever be worth to the evaluation: a pawn as much as
/// the queen it may become, any other piece its value in the center.
pub open spec fn potential(p: Piece) -> int {
    match p.t {
        Type::Pawn => 930,
        Type::Bishop => 300,
        Type::Knight => 330,
        Type::Rook => 530,
        Type::Queen => 930,
        Type::King => 10006,
    }
}

/// The sum of the potentials of the pieces in the first `n` slots of a list.
pub open spec fn potential_upto(list: Seq<Option<Piece>>, n: int) -> int
    decreases n,
{
    if n <= 0 {
        0
    } else {
        potential_upto(list, n - 1) + match list[n - 1] {
            Some(p) => potential(p),
            None => 0,
        }
    }
}

/// The sum of the values of the pieces in the first `n` slots of a list.
pub open spec fn value_upto(list: Seq<Option<Piece>>, n: int) -> int
    decreases n,
{
    if n <= 0 {
        0
    } else {
        value_upto(list, n - 1) + match list[n - 1] {
            Some(p) => p.spec_value(),
            None => 0,
        }
    }
}

/// Horizontal offset of the `i`-th knight jump.
pub open spec fn jump_dx(i: int) -> int {
    if i == 0 {
        1
    } else if i == 1 {
        -1
    } else if i == 2 {
        -2
    } else if i == 3 {
        -2
    } else if i == 4 {
        -1
    } else if i == 5 {
        1
    } else if i == 6 {
        2
    } else {
        2
    }
}

/// Vertical offset of the `i`-th knight jump.
pub open spec fn jump_dy(i: int) -> int {
    if i == 0 {
        2
    } else if i == 1 {
        2
    } else if i == 2 {
        1
    } else if i == 3 {
        -1
    } else if i == 4 {
        -2
    } else if i == 5 {
        -2
    } else if i == 6 {
        -1
    } else {
        1
    }
}

impl Move {
    pub open spec fn spec_capture_piece(piece: Piece, target: Piece) -> Move {
        Move { score: 0, action: Action::Capture { piece, target } }
    }

    pub open spec fn spec_move_piece(piece: Piece, to: Position) -> Move {
        Move { score: 0, action: Action::Move { from: piece, to: piece.spec_moved(to) } }
    }

    pub open spec fn spec_promote(piece: Piece, to: Position, t: Type) -> Move {
        Move {
            score: 0,
            action: Action::Promote {
                old_piece: piece,
                new_piece: Piece { t, position: to, index: piece.index, color: piece.color },
            },
        }
    }

    pub open spec fn spec_capture_and_promote(piece: Piece, target: Piece, t: Type) -> Move {
        Move {
            score: 0,
            action: Action::CaptureAndPromote {
                old_piece: piece,
                target,
                new_piece: Piece {
                    t,
                    position: target.position,
                    index: piece.index,
                    color: piece.color,
                },
            },
        }
    }

    pub open spec fn castle_king_side() -> Move {
        Move { score: 0, action: Action::CastleKingSide }
    }

    pub open spec fn castle_queen_side() -> Move {
        Move { score: 0, action: Action::CastleQueenSide }
    }
}

impl Layout {
    pub open spec fn well_shaped(self) -> bool {
        &&& self.cells.len() == 64
        &&& self.white.len() == 16
        &&& self.black.len() == 16
        &&& 0 <= self.used_white <= 16
        &&& 0 <= self.used_black <= 16
    }

    /// The piece on the square in file `x` and rank `y`.
    pub open spec fn piece_at(self, x: int, y: int) -> Option<Piece> {
        self.cells[cell_index(x, y)].piece
    }

    /// The piece on a square.
    pub open spec fn piece_on(self, position: Position) -> Option<Piece> {
        self.piece_at(position.x as int, position.y as int)
    }

    /// The piece list of a side.
    pub open spec fn list(self, color: Color) -> Seq<Option<Piece>> {
        match color {
            Color::White => self.white,
            Color::Black => self.black,
        }
    }

    pub open spec fn used(self, color: Color) -> int {
        match color {
            Color::White => self.used_white,
            Color::Black => self.used_black,
        }
    }

    pub open spec fn rights(self, color: Color) -> Rights {
        match color {
            Color::White => self.white_rights,
            Color::Black => self.black_rights,
        }
    }

    /// The side to move: White at the start and after every second move.
    pub open spec fn turn(self) -> Color {
        if self.history.len() % 2 == 0 {
            Color::White
        } else {
            Color::Black
        }
    }

    /// Whether the piece is in play: it is the piece its side's list holds
    /// in its slot.
    pub open spec fn in_play(self, p: Piece) -> bool {
        &&& p.index < 16
        &&& self.list(p.color)[p.index as int] == Some(p)
    }

    /// A cell agrees with the lists: the piece it holds stands on it and is
    /// in play.
    pub open spec fn cell_ok(self, x: int, y: int) -> bool {
        match self.piece_at(x, y) {
            Some(p) => p.position == square(x, y) && self.in_play(p),
            None => true,
        }
    }

    /// A slot agrees with the cells: the piece it holds is of the list's
    /// color, knows its slot, lies in a slot that was handed out and stands
    /// on the cell that holds it.
    pub open spec fn slot_ok(self, color: Color, i: int) -> bool {
        match self.list(color)[i] {
            Some(p) => {
                &&& p.color == color
                &&& p.index == i
                &&& i < self.used(color)
                &&& p.position.on_board()
                &&& self.piece_on(p.position) == Some(p)
            },
            None => true,
        }
    }

    pub open spec fn rights_ok(self, r: Rights) -> bool {
        &&& 0 <= r.king <= self.history.len()
        &&& 0 <= r.king_rook <= self.history.len()
        &&& 0 <= r.queen_rook <= self.history.len()
    }

    /// The board is sound, and so is every board that taking back the moves
    /// played leads to, one by one.
    pub open spec fn wf(self) -> bool
        decreases self.history.len(),
    {
        &&& self.sound()
        &&& self.history.len() > 0 ==> {
            &&& (Layout { history: self.history.drop_last(), ..self }).can_unmake(
                self.history.last(),
            )
            &&& self.pop().history.len() < self.history.len()
            &&& self.pop().wf()
        }
    }

    /// The cells and the piece lists agree, no counter of moves exceeds the
    /// number of moves played, and the evaluation fits in sixteen bits
    /// whatever becomes of the pieces.
    pub open spec fn sound(self) -> bool {
        &&& self.well_shaped()
        &&& forall|x: int, y: int| inside(x, y) ==> #[trigger] self.cell_ok(x, y)
        &&& forall|c: Color, i: int| 0 <= i < 16 ==> #[trigger] self.slot_ok(c, i)
        &&& self.rights_ok(self.white_rights)
        &&& self.rights_ok(self.black_rights)
        &&& potential_upto(self.white, 16) <= i16::MAX
        &&& potential_upto(self.black, 16) <= i16::MAX
    }

    /// The empty board.
    pub open spec fn empty() -> Layout {
        Layout {
            cells: Seq::new(64, |i: int| Cell::spec_empty()),
            white: Seq::new(16, |i: int| None),
            black: Seq::new(16, |i: int| None),
            used_white: 0,
            used_black: 0,
            history: Seq::empty(),
            white_rights: Rights { king: 0, king_rook: 0, queen_rook: 0 },
            black_rights: Rights { king: 0, king_rook: 0, queen_rook: 0 },
        }
    }

    pub open spec fn set_cell(self, position: Position, piece: Option<Piece>) -> Layout {
        let i = cell_index(position.x as int, position.y as int);
        Layout { cells: self.cells.update(i, Cell { piece, ..self.cells[i] }), ..self }
    }

    pub open spec fn set_slot(self, color: Color, i: int, piece: Option<Piece>) -> Layout {
        match color {
            Color::White => Layout { white: self.white.update(i, piece), ..self },
            Color::Black => Layout { black: self.black.update(i, piece), ..self },
        }
    }

    pub open spec fn set_rights(self, color: Color, rights: Rights) -> Layout {
        match color {
            Color::White => Layout { white_rights: rights, ..self },
            Color::Black => Layout { black_rights: rights, ..self },
        }
    }

    /// The board after a new piece was put on a square.
    pub open spec fn place(self, color: Color, t: Type, x: int, y: int) -> Layout {
        let piece = Piece { t, position: square(x, y), color, index: self.used(color) as u8 };
        let placed = self.set_slot(color, self.used(color), Some(piece)).set_cell(
            square(x, y),
            Some(piece),
        );
        match color {
            Color::White => Layout { used_white: self.used_white + 1, ..placed },
            Color::Black => Layout { used_black: self.used_black + 1, ..placed },
        }
    }

    /// The piece `from` becomes the piece `to`, on the square of `to`.
    pub open spec fn relocate(self, from: Piece, to: Piece) -> Layout {
        self.set_cell(to.position, Some(to)).set_cell(from.position, None).set_slot(
            from.color,
            from.index as int,
            Some(to),
        )
    }

    /// The piece leaves the board.
    pub open spec fn remove(self, piece: Piece) -> Layout {
        self.set_cell(piece.position, None).set_slot(piece.color, piece.index as int, None)
    }

    /// The piece comes back to the board.
    pub open spec fn restore(self, piece: Piece) -> Layout {
        self.set_cell(piece.position, Some(piece)).set_slot(
            piece.color,
            piece.index as int,
            Some(piece),
        )
    }

    /// The counts of moves of a side change by `by` for a move of the piece:
    /// that of the king if it is the king, and that of a rook if it is a
    /// rook that stands in its corner of the side's back rank.
    pub open spec fn count_move(self, piece: Piece, by: int) -> Layout {
        self.set_rights(piece.color, counted(self.rights(piece.color), piece, by))
    }

    /// King and rook of the side to move go from their files to others on
    /// the side's back rank, and their counts of moves change by `by`.
    pub open spec fn castle(
        self,
        king_from: int,
        king_to: int,
        rook_from: int,
        rook_to: int,
        king_side: bool,
        by: int,
    ) -> Layout {
        let color = self.turn();
        let y = back_rank(color);
        let king = self.piece_at(king_from, y).unwrap();
        let rook = self.piece_at(rook_from, y).unwrap();
        let moved = self.relocate(king, king.spec_moved(square(king_to, y))).relocate(
            rook,
            rook.spec_moved(square(rook_to, y)),
        );
        let r = self.rights(color);
        moved.set_rights(
            color,
            if king_side {
                Rights { king: r.king + by, king_rook: r.king_rook + by, ..r }
            } else {
                Rights { king: r.king + by, queen_rook: r.queen_rook + by, ..r }
            },
        )
    }

    /// The board after a move was made on it; the history is not touched.
    pub open spec fn make(self, m: Move) -> Layout {
        match m.action {
            Action::NoAction => self,
            Action::Move { from, to } => self.relocate(from, to).count_move(from, 1),
            Action::Capture { piece, target } => self.remove(target).relocate(
                piece,
                piece.spec_moved(target.position),
            ).count_move(piece, 1),
            Action::Promote { old_piece, new_piece } => self.relocate(old_piece, new_piece),
            Action::CaptureAndPromote { old_piece, target, new_piece } => self.remove(
                target,
            ).relocate(old_piece, new_piece),
            Action::CastleKingSide => self.castle(4, 6, 7, 5, true, 1),
            Action::CastleQueenSide => self.castle(4, 2, 0, 3, false, 1),
        }
    }

    /// The board after a move was unmade on it; the history is not touched.
    pub open spec fn unmake(self, m: Move) -> Layout {
        match m.action {
            Action::NoAction => self,
            Action::Move { from, to } => self.relocate(to, from).count_move(from, -1),
            Action::Capture { piece, target } => self.relocate(
                piece.spec_moved(target.position),
                piece,
            ).restore(target).count_move(piece, -1),
            Action::Promote { old_piece, new_piece } => self.relocate(new_piece, old_piece),
            Action::CaptureAndPromote { old_piece, target, new_piece } => self.relocate(
                new_piece,
                old_piece,
            ).restore(target),
            Action::CastleKingSide => self.castle(6, 4, 5, 7, true, -1),
            Action::CastleQueenSide => self.castle(2, 4, 3, 0, false, -1),
        }
    }

    /// The board after a move was played: made, and put on the history.
    pub open spec fn push(self, m: Move) -> Layout {
        let made = self.make(m);
        Layout { history: self.history.push(m), ..made }
    }

    /// The board after the last move was taken back.
    pub open spec fn pop(self) -> Layout {
        let shorter = Layout { history: self.history.drop_last(), ..self };
        shorter.unmake(self.history.last())
    }

    /// Whether a square is on the board and empty.
    pub open spec fn free(self, position: Position) -> bool {
        position.on_board() && self.piece_on(position).is_none()
    }

    /// Whether the side to move can castle: its king stands on the e-file of
    /// its back rank, one of its rooks in the corner, and the squares
    /// between them are empty.
    pub open spec fn can_castle(self, king_side: bool) -> bool {
        let color = self.turn();
        let y = back_rank(color);
        let corner = if king_side {
            7int
        } else {
            0int
        };
        &&& self.piece_at(4, y) matches Some(k) && k.t == Type::King && k.color == color
        &&& self.piece_at(corner, y) matches Some(r) && r.t == Type::Rook && r.color == color
        &&& if king_side {
            self.piece_at(5, y).is_none() && self.piece_at(6, y).is_none()
        } else {
            self.piece_at(1, y).is_none() && self.piece_at(2, y).is_none() && self.piece_at(
                3,
                y,
            ).is_none()
        }
    }

    /// Whether a castling of the side to move can be taken back: king and
    /// rook stand where castling put them and the squares they came from
    /// are empty.
    pub open spec fn can_uncastle(self, king_side: bool) -> bool {
        let color = self.turn();
        let y = back_rank(color);
        let r = self.rights(color);
        if king_side {
            &&& self.piece_at(6, y).is_some()
            &&& self.piece_at(5, y).is_some()
            &&& self.piece_at(4, y).is_none()
            &&& self.piece_at(7, y).is_none()
            &&& r.king >= 1
            &&& r.king_rook >= 1
        } else {
            &&& self.piece_at(2, y).is_some()
            &&& self.piece_at(3, y).is_some()
            &&& self.piece_at(4, y).is_none()
            &&& self.piece_at(0, y).is_none()
            &&& r.king >= 1
            &&& r.queen_rook >= 1
        }
    }

    /// Whether a move can be made on this board: the pieces it speaks of are
    /// in play as it describes them, and the square it leads to is free.
    pub open spec fn can_make(self, m: Move) -> bool {
        &&& self.history.len() < i32::MAX
        &&& match m.action {
            Action::NoAction => false,
            Action::Move { from, to } => {
                &&& self.in_play(from)
                &&& to == from.spec_moved(to.position)
                &&& self.free(to.position)
            },
            Action::Capture { piece, target } => {
                &&& self.in_play(piece)
                &&& self.in_play(target)
                &&& target.color != piece.color
            },
            Action::Promote { old_piece, new_piece } => {
                &&& self.in_play(old_piece)
                &&& potential(new_piece) <= potential(old_piece)
                &&& new_piece.color == old_piece.color
                &&& new_piece.index == old_piece.index
                &&& self.free(new_piece.position)
            },
            Action::CaptureAndPromote { old_piece, target, new_piece } => {
                &&& self.in_play(old_piece)
                &&& self.in_play(target)
                &&& target.color != old_piece.color
                &&& potential(new_piece) <= potential(old_piece)
                &&& new_piece.color == old_piece.color
                &&& new_piece.index == old_piece.index
                &&& new_piece.position == target.position
            },
            Action::CastleKingSide => self.can_castle(true),
            Action::CastleQueenSide => self.can_castle(false),
        }
    }

    /// Whether a move can be unmade on this board: the board looks as the
    /// move left it.
    pub open spec fn can_unmake(self, m: Move) -> bool {
        match m.action {
            Action::NoAction => false,
            Action::Move { from, to } => {
                &&& self.in_play(to)
                &&& to == from.spec_moved(to.position)
                &&& self.free(from.position)
                &&& counts(counted(self.rights(from.color), from, -1))
            },
            Action::Capture { piece, target } => {
                &&& self.in_play(piece.spec_moved(target.position))
                &&& self.free(piece.position)
                &&& target.color != piece.color
                &&& target.index < 16
                &&& target.index < self.used(target.color)
                &&& self.list(target.color)[target.index as int].is_none()
                &&& target.position.on_board()
                &&& counts(counted(self.rights(piece.color), piece, -1))
                &&& potential_upto(self.list(target.color), 16) + potential(target) <= i16::MAX
            },
            Action::Promote { old_piece, new_piece } => {
                &&& self.in_play(new_piece)
                &&& new_piece.color == old_piece.color
                &&& new_piece.index == old_piece.index
                &&& self.free(old_piece.position)
                &&& potential_upto(self.list(new_piece.color), 16) - potential(new_piece)
                    + potential(old_piece) <= i16::MAX
            },
            Action::CaptureAndPromote { old_piece, target, new_piece } => {
                &&& self.in_play(new_piece)
                &&& new_piece.color == old_piece.color
                &&& new_piece.index == old_piece.index
                &&& new_piece.position == target.position
                &&& self.free(old_piece.position)
                &&& target.color != old_piece.color
                &&& target.index < 16
                &&& target.index < self.used(target.color)
                &&& self.list(target.color)[target.index as int].is_none()
                &&& target.position.on_board()
                &&& potential_upto(self.list(new_piece.color), 16) - potential(new_piece)
                    + potential(old_piece) <= i16::MAX
                &&& potential_upto(self.list(target.color), 16) + potential(target) <= i16::MAX
            },
            Action::CastleKingSide => self.can_uncastle(true),
            Action::CastleQueenSide => self.can_uncastle(false),
        }
    }
}

/// A list without pieces has no potential.
pub proof fn lemma_potential_none(list: Seq<Option<Piece>>, n: int)
    requires
        n <= list.len(),
        forall|i: int| 0 <= i < n ==> list[i].is_none(),
    ensures
        potential_upto(list, n) == 0,
    decreases n,
{
    if n > 0 {
        lemma_potential_none(list, n - 1);
    }
}

/// The potential of more slots is at least that of fewer.
pub proof fn lemma_potential_grows(list: Seq<Option<Piece>>, i: int, n: int)
    requires
        0 <= i <= n,
    ensures
        0 <= potential_upto(list, i) <= potential_upto(list, n),
    decreases n,
{
    if i < n {
        lemma_potential_grows(list, i, n - 1);
    } else if n > 0 {
        lemma_potential_grows(list, i - 1, n - 1);
    }
}

/// What a piece is worth to the evaluation of a slot: its potential.
pub open spec fn slot_potential(slot: Option<Piece>) -> int {
    match slot {
        Some(p) => potential(p),
        None => 0,
    }
}

/// Changing one slot changes the potential of the list by the difference of
/// the two pieces' potentials.
pub proof fn lemma_potential_update(list: Seq<Option<Piece>>, n: int, i: int, slot: Option<Piece>)
    requires
        0 <= i < list.len(),
        0 <= n <= list.len(),
    ensures
        potential_upto(list.update(i, slot), n) == potential_upto(list, n) + if i < n {
            slot_potential(slot) - slot_potential(list[i])
        } else {
            0
        },
    decreases n,
{
    if n > 0 {
        lemma_potential_update(list, n - 1, i, slot);
    }
}

/// The values of the pieces of a list are at least nothing and at most their
/// potentials, if the pieces stand on the board.
pub proof fn lemma_value_below_potential(list: Seq<Option<Piece>>, n: int)
    requires
        0 <= n <= list.len(),
        forall|i: int|
            0 <= i < n ==> (#[trigger] list[i] matches Some(p) ==> p.position.on_board()),
    ensures
        0 <= value_upto(list, n) <= potential_upto(list, n),
    decreases n,
{
    if n > 0 {
        lemma_value_below_potential(list, n - 1);
    }
}

impl Layout {
    /// A piece put on an empty square leaves the board well formed, if the
    /// potential of its side stays in bounds.
    pub proof fn lemma_place_wf(self, color: Color, t: Type, x: int, y: int)
        requires
            inside(x, y),
            0 <= self.used(color) < 16,
            self.cells.len() == 64,
            self.white.len() == 16,
            self.black.len() == 16,
        ensures
            potential_upto(self.place(color, t, x, y).list(color), 16) == potential_upto(
                self.list(color),
                16,
            ) + potential(Piece { t, position: square(x, y), color, index: 0 })
                - slot_potential(self.list(color)[self.used(color)]),
            self.wf() && self.history.len() == 0 && self.piece_at(x, y).is_none()
                && potential_upto(self.list(color), 16) + potential(
                Piece { t, position: square(x, y), color, index: 0 },
            ) <= i16::MAX ==> self.place(color, t, x, y).wf(),
    {
        let after = self.place(color, t, x, y);
        let n = self.used(color);
        let piece = Piece { t, position: square(x, y), color, index: n as u8 };
        lemma_potential_update(self.list(color), 16, n, Some(piece));
        if self.wf() && self.history.len() == 0 && self.piece_at(x, y).is_none()
            && potential_upto(self.list(color), 16) + potential(piece) <= i16::MAX {
            assert(self.slot_ok(color, n));
            assert forall|i: int, j: int| inside(i, j) implies #[trigger] after.cell_ok(i, j) by {
                assert(self.cell_ok(i, j));
            }
            assert forall|c: Color, i: int| 0 <= i < 16 implies #[trigger] after.slot_ok(c, i) by {
                assert(self.slot_ok(c, i));
            }
        }
    }
}

/// Whether a move is the one that two squares name: a plain move, a capture
/// or a promotion from the first to the second, or a castling, which counts
/// as the move of the king by two squares. A capture with promotion is named
/// by no two squares.
pub open spec fn fits(m: Move, start: Position, goal: Position, color: Color) -> bool {
    match m.action {
        Action::Move { from, to } => from.position == start && to.position == goal,
        Action::Capture { piece, target } => piece.position == start && target.position == goal,
        Action::Promote { old_piece, new_piece } => old_piece.position == start && new_piece.position
            == goal,
        Action::CaptureAndPromote { old_piece, target, new_piece } => false,
        Action::CastleKingSide => start == square(4, back_rank(color)) && goal == square(
            6,
            back_rank(color),
        ),
        Action::CastleQueenSide => start == square(4, back_rank(color)) && goal == square(
            2,
            back_rank(color),
        ),
        Action::NoAction => false,
    }
}

/// The first move from the `i`-th on that leads from one square to another.
pub open spec fn first_fitting(moves: Seq<Move>, start: Position, goal: Position, color: Color, i: int)
    -> Option<Move>
    decreases moves.len() - i,
{
    if i < 0 || i >= moves.len() {
        None
    } else if fits(moves[i], start, goal, color) {
        Some(moves[i])
    } else {
        first_fitting(moves, start, goal, color, i + 1)
    }
}

/// What a cell adds to the hash of a position: one for a white piece, and
/// the place of the piece's type among the types.
pub open spec fn cell_code(cell: Cell) -> u64 {
    match cell.piece {
        Some(piece) => ((if piece.color == Color::White {
            1int
        } else {
            0int
        }) + match piece.t {
            Type::Pawn => 0int,
            Type::Bishop => 1int,
            Type::Knight => 2int,
            Type::Rook => 3int,
            Type::Queen => 4int,
            Type::King => 5int,
        }) as u64,
        None => 0,
    }
}

/// The hash of the first `n` cells: each cell shifts the hash by nine bits,
/// losing what goes beyond 64 bits, and adds its code.
pub open spec fn hash_upto(cells: Seq<Cell>, n: int) -> u64
    decreases n,
{
    if n <= 0 {
        0
    } else {
        hash_upto(cells, n - 1).wrapping_mul(16).wrapping_mul(32).wrapping_add(
            cell_code(cells[n - 1]),
        )
    }
}

impl Layout {
    /// The move of the side to move that leads from one square to another,
    /// if it has one and both squares are on the board.
    pub open spec fn move_between(self, x1: int, y1: int, x2: int, y2: int) -> Option<Move> {
        if !inside(x1, y1) || !inside(x2, y2) {
            None
        } else {
            first_fitting(
                self.all_moves(self.turn(), false, false),
                square(x1, y1),
                square(x2, y2),
                self.turn(),
                0,
            )
        }
    }

    /// Whether the first four bytes of a text name a move of the side to
    /// move: file and rank of the square it starts from, then file and rank
    /// of the square it leads to, files from `a` and ranks from `1`.
    pub open spec fn names_move(self, text: Seq<u8>) -> bool {
        text.len() >= 4 && self.move_between(
            text[0] - 97,
            text[1] - 49,
            text[2] - 97,
            text[3] - 49,
        ) is Some
    }

    /// The board after the pawns of the first `n` files were put on it, file
    /// by file: White's on the second rank, then Black's on the seventh.
    pub open spec fn pawn_files(n: int) -> Layout
        decreases n,
    {
        if n <= 0 {
            Layout::empty()
        } else {
            Layout::pawn_files(n - 1).place(Color::White, Type::Pawn, n - 1, 1).place(
                Color::Black,
                Type::Pawn,
                n - 1,
                6,
            )
        }
    }

    /// The starting position of a game of chess, piece by piece in the order
    /// in which the pieces take their slots.
    pub open spec fn classic() -> Layout {
        Layout::pawn_files(8).place(Color::White, Type::Rook, 0, 0).place(
            Color::White,
            Type::Rook,
            7,
            0,
        ).place(Color::Black, Type::Rook, 0, 7).place(Color::Black, Type::Rook, 7, 7).place(
            Color::White,
            Type::King,
            4,
            0,
        ).place(Color::Black, Type::King, 4, 7).place(Color::White, Type::Queen, 3, 0).place(
            Color::Black,
            Type::Queen,
            3,
            7,
        ).place(Color::White, Type::Bishop, 2, 0).place(Color::White, Type::Bishop, 5, 0).place(
            Color::Black,
            Type::Bishop,
            2,
            7,
        ).place(Color::Black, Type::Bishop, 5, 7).place(Color::White, Type::Knight, 1, 0).place(
            Color::White,
            Type::Knight,
            6,
            0,
        ).place(Color::Black, Type::Knight, 1, 7).place(Color::Black, Type::Knight, 6, 7)
    }
}

} // verus!
