//! The board: a fixed store of pieces, an index from squares to pieces, and
//! the castling rights of both sides.

use crate::model::{slot_ref, sq, BoardView};
use crate::moves::{
    king_dx, king_dy, king_flags, knight_dx, knight_dy, lemma_written_behind, lemma_written_twice,
    rook_flags, written,
};
pub use crate::piece2::{on_board, Color, Piece, PieceRef, PieceView, Position, RefView, Type};
use vstd::prelude::*;

verus! {

/// Castling rights a side has used up: each flag is set once the king or the
/// rook it names has moved.
#[derive(Copy, Clone, Debug, PartialEq, Eq, Structural)]
pub struct MoveFlags {
    pub king: bool,
    pub king_rook: bool,
    pub queen_rook: bool,
}

impl MoveFlags {
    pub open spec fn spec_empty() -> MoveFlags {
        MoveFlags { king: false, king_rook: false, queen_rook: false }
    }

    pub open spec fn spec_full() -> MoveFlags {
        MoveFlags { king: true, king_rook: true, queen_rook: true }
    }

    /// No flag set.
    #[verifier::when_used_as_spec(spec_empty)]
    pub fn empty() -> (r: MoveFlags)
        ensures
            r == MoveFlags::spec_empty(),
    {
        MoveFlags { king: false, king_rook: false, queen_rook: false }
    }

    /// Only the flag of the king.
    pub fn king_moved() -> (r: MoveFlags)
        ensures
            r == (MoveFlags { king: true, ..MoveFlags::spec_empty() }),
    {
        MoveFlags { king: true, king_rook: false, queen_rook: false }
    }

    /// Only the flag of the king-side rook.
    pub fn king_rook_moved() -> (r: MoveFlags)
        ensures
            r == (MoveFlags { king_rook: true, ..MoveFlags::spec_empty() }),
    {
        MoveFlags { king: false, king_rook: true, queen_rook: false }
    }

    /// Only the flag of the queen-side rook.
    pub fn queen_rook_moved() -> (r: MoveFlags)
        ensures
            r == (MoveFlags { queen_rook: true, ..MoveFlags::spec_empty() }),
    {
        MoveFlags { king: false, king_rook: false, queen_rook: true }
    }

    /// Every flag set.
    #[verifier::when_used_as_spec(spec_full)]
    pub fn full() -> (r: MoveFlags)
        ensures
            r == MoveFlags::spec_full(),
    {
        MoveFlags { king: true, king_rook: true, queen_rook: true }
    }

    pub open spec fn spec_contains(self, other: MoveFlags) -> bool {
        &&& other.king ==> self.king
        &&& other.king_rook ==> self.king_rook
        &&& other.queen_rook ==> self.queen_rook
    }

    /// Whether every flag of `other` is set in `self`.
    #[verifier::when_used_as_spec(spec_contains)]
    pub fn contains(self, other: MoveFlags) -> (r: bool)
        ensures
            r == self.spec_contains(other),
    {
        (!other.king || self.king) && (!other.king_rook || self.king_rook) && (!other.queen_rook
            || self.queen_rook)
    }

    pub open spec fn spec_union(self, other: MoveFlags) -> MoveFlags {
        MoveFlags {
            king: self.king || other.king,
            king_rook: self.king_rook || other.king_rook,
            queen_rook: self.queen_rook || other.queen_rook,
        }
    }

    /// The flags set in either.
    #[verifier::when_used_as_spec(spec_union)]
    pub fn union(self, other: MoveFlags) -> (r: MoveFlags)
        ensures
            r == self.spec_union(other),
    {
        MoveFlags {
            king: self.king || other.king,
            king_rook: self.king_rook || other.king_rook,
            queen_rook: self.queen_rook || other.queen_rook,
        }
    }

    pub open spec fn spec_toggle(self, other: MoveFlags) -> MoveFlags {
        MoveFlags {
            king: self.king != other.king,
            king_rook: self.king_rook != other.king_rook,
            queen_rook: self.queen_rook != other.queen_rook,
        }
    }

    /// The flags set in exactly one of the two.
    #[verifier::when_used_as_spec(spec_toggle)]
    pub fn toggle(self, other: MoveFlags) -> (r: MoveFlags)
        ensures
            r == self.spec_toggle(other),
    {
        MoveFlags {
            king: self.king != other.king,
            king_rook: self.king_rook != other.king_rook,
            queen_rook: self.queen_rook != other.queen_rook,
        }
    }

    /// Whether no flag is set in both.
    pub open spec fn disjoint(self, other: MoveFlags) -> bool {
        &&& !(self.king && other.king)
        &&& !(self.king_rook && other.king_rook)
        &&& !(self.queen_rook && other.queen_rook)
    }

    /// Sets or clears in `self` every flag of `other`.
    pub fn set(&mut self, other: MoveFlags, value: bool)
        ensures
            final(self).king == (if other.king {
                value
            } else {
                old(self).king
            }),
            final(self).king_rook == (if other.king_rook {
                value
            } else {
                old(self).king_rook
            }),
            final(self).queen_rook == (if other.queen_rook {
                value
            } else {
                old(self).queen_rook
            }),
    {
        if other.king {
            self.king = value;
        }
        if other.king_rook {
            self.king_rook = value;
        }
        if other.queen_rook {
            self.queen_rook = value;
        }
    }
}

/// What a move does.
#[derive(Copy, Clone, Debug, PartialEq, Eq, Structural)]
pub enum Action {
    /// Nothing: the placeholder a search starts from.
    NoAction,
    /// A static evaluation, carried in the move's score.
    Evaluate,
    /// The piece goes from `start` to the empty square `end`.
    Move { start: Position, end: Position },
    /// The piece takes `target` and stands on its square.
    Capture { target: PieceRef },
    /// The pawn steps onto `end` and becomes a piece of type `t`.
    Promote { t: Type, end: Position },
    /// The pawn takes `target` and becomes a piece of type `t`.
    CaptureAndPromote { target: PieceRef, t: Type },
    /// King and rook castle; the move's flags say on which side.
    Castle,
}

/// A move: what it does, which piece makes it, the score a search gave it and
/// the castling rights it uses up.
#[derive(Copy, Clone, Debug, PartialEq, Eq, Structural)]
pub struct Move {
    pub action: Action,
    pub piece_ref: PieceRef,
    pub score: i32,
    pub flags: MoveFlags,
}

impl Move {
    pub fn action(&self) -> (r: &Action)
        ensures
            *r == self.action,
    {
        &self.action
    }

    pub fn flags(&self) -> (r: &MoveFlags)
        ensures
            *r == self.flags,
    {
        &self.flags
    }

    pub open spec fn spec_none() -> Move {
        Move {
            action: Action::NoAction,
            piece_ref: PieceRef::spec_null(),
            score: 0,
            flags: MoveFlags::spec_empty(),
        }
    }

    #[verifier::when_used_as_spec(spec_none)]
    pub fn none() -> (r: Move)
        ensures
            r == Move::spec_none(),
    {
        Move {
            action: Action::NoAction,
            piece_ref: PieceRef::null(),
            score: 0,
            flags: MoveFlags::empty(),
        }
    }

    pub open spec fn spec_new_move(
        piece_ref: PieceRef,
        start: Position,
        end: Position,
        flags: MoveFlags,
    ) -> Move {
        Move { action: Action::Move { start, end }, piece_ref, score: 0, flags }
    }

    #[verifier::when_used_as_spec(spec_new_move)]
    pub fn new_move(piece_ref: PieceRef, start: Position, end: Position, flags: MoveFlags) -> (r:
        Move)
        ensures
            r == Move::spec_new_move(piece_ref, start, end, flags),
    {
        Move { piece_ref, action: Action::Move { start, end }, score: 0, flags }
    }

    pub open spec fn spec_new_capture(
        piece_ref: PieceRef,
        target_ref: PieceRef,
        flags: MoveFlags,
    ) -> Move {
        Move { action: Action::Capture { target: target_ref }, piece_ref, score: 0, flags }
    }

    #[verifier::when_used_as_spec(spec_new_capture)]
    pub fn new_capture(piece_ref: PieceRef, target_ref: PieceRef, flags: MoveFlags) -> (r: Move)
        ensures
            r == Move::spec_new_capture(piece_ref, target_ref, flags),
    {
        Move { piece_ref, action: Action::Capture { target: target_ref }, score: 0, flags }
    }

    pub open spec fn spec_new_promote(piece_ref: PieceRef, t: Type, end: Position) -> Move {
        Move {
            action: Action::Promote { t, end },
            piece_ref,
            score: 0,
            flags: MoveFlags::spec_empty(),
        }
    }

    #[verifier::when_used_as_spec(spec_new_promote)]
    pub fn new_promote(piece_ref: PieceRef, t: Type, end: Position) -> (r: Move)
        ensures
            r == Move::spec_new_promote(piece_ref, t, end),
    {
        Move { piece_ref, action: Action::Promote { t, end }, score: 0, flags: MoveFlags::empty() }
    }

    pub open spec fn spec_new_capture_and_promote(
        piece_ref: PieceRef,
        target: PieceRef,
        t: Type,
    ) -> Move {
        Move {
            action: Action::CaptureAndPromote { target, t },
            piece_ref,
            score: 0,
            flags: MoveFlags::spec_empty(),
        }
    }

    #[verifier::when_used_as_spec(spec_new_capture_and_promote)]
    pub fn new_capture_and_promote(piece_ref: PieceRef, target: PieceRef, t: Type) -> (r: Move)
        ensures
            r == Move::spec_new_capture_and_promote(piece_ref, target, t),
    {
        Move {
            piece_ref,
            action: Action::CaptureAndPromote { t, target },
            score: 0,
            flags: MoveFlags::empty(),
        }
    }

    pub open spec fn spec_new_castle(king_ref: PieceRef, flags: MoveFlags) -> Move {
        Move { action: Action::Castle, piece_ref: king_ref, score: 0, flags }
    }

    #[verifier::when_used_as_spec(spec_new_castle)]
    pub fn new_castle(king_ref: PieceRef, flags: MoveFlags) -> (r: Move)
        ensures
            r == Move::spec_new_castle(king_ref, flags),
    {
        Move { piece_ref: king_ref, action: Action::Castle, score: 0, flags }
    }

    pub open spec fn spec_new_evaluate(score: i32) -> Move {
        Move {
            action: Action::Evaluate,
            piece_ref: PieceRef::spec_null(),
            score,
            flags: MoveFlags::spec_empty(),
        }
    }

    #[verifier::when_used_as_spec(spec_new_evaluate)]
    pub fn new_evaluate(score: i32) -> (r: Move)
        ensures
            r == Move::spec_new_evaluate(score),
    {
        Move {
            piece_ref: PieceRef::null(),
            action: Action::Evaluate,
            score,
            flags: MoveFlags::empty(),
        }
    }

    /// The same move with its score negated.
    pub open spec fn negated(self) -> Move {
        Move { score: (-self.score) as i32, ..self }
    }

}

/// The same move seen from the other side: its score changes sign.
impl core::ops::Neg for Move {
    type Output = Move;

    fn neg(self) -> (r: Move) {
        Move { score: -self.score, action: self.action, flags: self.flags, piece_ref: self.piece_ref }
    }
}

impl vstd::std_specs::ops::NegSpecImpl for Move {
    open spec fn obeys_neg_spec() -> bool {
        true
    }

    open spec fn neg_req(self) -> bool {
        self.score > i32::MIN
    }

    open spec fn neg_spec(self) -> Move {
        self.negated()
    }
}

/// What a piece store holds.
pub struct PieceListView {
    /// The 32 slots: White's sixteen, then Black's.
    pub pieces: Seq<Piece>,
    pub used_white: int,
    pub used_black: int,
}

/// The piece store: sixteen slots for each side. A piece keeps its slot for
/// the whole game.
#[derive(PartialEq, Eq, Clone)]
pub struct PieceList {
    pieces: [Piece; 32],
    used_white_pieces: usize,
    used_black_pieces: usize,
}

impl PieceList {
    pub closed spec fn view(&self) -> PieceListView {
        PieceListView {
            pieces: self.pieces@,
            used_white: self.used_white_pieces as int,
            used_black: self.used_black_pieces as int,
        }
    }

    /// A store always has 32 slots, and the slots in use are counted from
    /// nothing.
    pub proof fn lemma_view_shape(&self)
        ensures
            self@.pieces.len() == 32,
            0 <= self@.used_white,
            0 <= self@.used_black,
    {
    }

    pub fn new() -> (r: PieceList)
        ensures
            r@.pieces == Seq::new(32, |s: int| Piece::spec_null()),
            r@.used_white == 0,
            r@.used_black == 0,
    {
        let r = PieceList { pieces: [Piece::null(); 32], used_white_pieces: 0, used_black_pieces: 0 };
        assert(r.pieces@ =~= Seq::new(32, |s: int| Piece::spec_null()));
        r
    }

    /// Stores the piece in the next free slot of its color and returns the
    /// reference to that slot.
    pub fn add_new_piece(&mut self, piece: Piece) -> (r: PieceRef)
        requires
            piece@.color == Color::White ==> old(self)@.used_white < 16,
            piece@.color == Color::Black ==> old(self)@.used_black < 16,
        ensures
            piece@.color == Color::White ==> {
                &&& r == PieceRef::spec_new(Color::White, old(self)@.used_white)
                &&& final(self)@ == (PieceListView {
                    pieces: old(self)@.pieces.update(old(self)@.used_white, piece),
                    used_white: old(self)@.used_white + 1,
                    ..old(self)@
                })
            },
            piece@.color == Color::Black ==> {
                &&& r == PieceRef::spec_new(Color::Black, old(self)@.used_black)
                &&& final(self)@ == (PieceListView {
                    pieces: old(self)@.pieces.update(old(self)@.used_black + 16, piece),
                    used_black: old(self)@.used_black + 1,
                    ..old(self)@
                })
            },
    {
        let color = piece.color();
        if color == Color::White {
            self.pieces[self.used_white_pieces] = piece;
            self.used_white_pieces += 1;
            PieceRef::new(color, self.used_white_pieces - 1)
        } else {
            self.pieces[self.used_black_pieces + 16] = piece;
            self.used_black_pieces += 1;
            PieceRef::new(color, self.used_black_pieces - 1)
        }
    }

    /// White's sixteen slots.
    pub fn white(&self) -> (r: &[Piece])
        ensures
            r@ == self@.pieces.subrange(0, 16),
    {
        vstd::slice::slice_subrange(vstd::array::array_as_slice(&self.pieces), 0, 16)
    }

    /// Black's sixteen slots.
    pub fn black(&self) -> (r: &[Piece])
        ensures
            r@ == self@.pieces.subrange(16, 32),
    {
        vstd::slice::slice_subrange(vstd::array::array_as_slice(&self.pieces), 16, 32)
    }

    /// The piece a reference names.
    pub fn get(&self, piece_ref: PieceRef) -> (r: &Piece)
        ensures
            *r == self@.pieces[piece_ref@.flat()],
    {
        &self.pieces[piece_ref.index()]
    }
}

/// The square index: for each square, the reference to the piece on it.
#[derive(PartialEq, Eq, Clone)]
pub struct PieceBoard {
    piece_refs: [PieceRef; 64],
}

impl PieceBoard {
    pub closed spec fn view(&self) -> Seq<PieceRef> {
        self.piece_refs@
    }

    /// A square index always has 64 squares.
    pub proof fn lemma_view_shape(&self)
        ensures
            self@.len() == 64,
    {
    }

    pub fn new() -> (r: PieceBoard)
        ensures
            r@ == Seq::new(64, |q: int| PieceRef::spec_null()),
    {
        let r = PieceBoard { piece_refs: [PieceRef::null(); 64] };
        assert(r.piece_refs@ =~= Seq::new(64, |q: int| PieceRef::spec_null()));
        r
    }

    pub fn piece_refs(&self) -> (r: &[PieceRef; 64])
        ensures
            r@ == self@,
    {
        &self.piece_refs
    }

    /// The reference stored for a square.
    pub fn get(&self, position: Position) -> (r: PieceRef)
        requires
            position.wf(),
        ensures
            r == self@[position@],
    {
        self.piece_refs[position.index()]
    }
}

/// The board of a game.
#[derive(PartialEq, Eq, Clone)]
pub struct Board {
    board: PieceBoard,
    pieces: PieceList,
    white_move_flags: MoveFlags,
    black_move_flags: MoveFlags,
}

impl Board {
    pub closed spec fn view(&self) -> BoardView {
        BoardView {
            squares: self.board@,
            pieces: self.pieces@.pieces,
            used_white: self.pieces@.used_white,
            used_black: self.pieces@.used_black,
            white_flags: self.white_move_flags,
            black_flags: self.black_move_flags,
        }
    }

    /// The piece store and the square index agree.
    pub open spec fn wf(&self) -> bool {
        self@.wf()
    }

    /// A board always has 64 squares and 32 slots.
    pub proof fn lemma_view_shape(&self)
        ensures
            self@.squares.len() == 64,
            self@.pieces.len() == 32,
    {
    }

    pub fn new() -> (r: Board)
        ensures
            r@ == BoardView::empty(),
            r.wf(),
            forall|x: int, y: int| on_board(x, y) ==> !#[trigger] r@.occupied(x, y),
    {
        let r = Board {
            board: PieceBoard::new(),
            pieces: PieceList::new(),
            white_move_flags: MoveFlags::empty(),
            black_move_flags: MoveFlags::empty(),
        };
        proof {
            broadcast use Piece::lemma_make;
            broadcast use PieceRef::lemma_make;
            broadcast use Position::lemma_at;

            assert forall|s: int| 0 <= s < 32 implies #[trigger] r@.slot_ok(s) by {}
            assert forall|q: int| 0 <= q < 64 implies #[trigger] r@.square_ok(q) by {}
        }
        r
    }

    pub fn piece_from_ref(&self, pref: PieceRef) -> (r: &Piece)
        ensures
            *r == self@.piece(pref),
    {
        self.pieces.get(pref)
    }

    /// The castling rights a side has used up.
    pub fn move_flags(&self, color: Color) -> (r: MoveFlags)
        ensures
            r == self@.flags(color),
    {
        match color {
            Color::White => self.white_move_flags,
            Color::Black => self.black_move_flags,
        }
    }

    pub fn black_pieces(&self) -> (r: &[Piece])
        ensures
            r@ == self@.pieces.subrange(16, 32),
    {
        self.pieces.black()
    }

    pub fn white_pieces(&self) -> (r: &[Piece])
        ensures
            r@ == self@.pieces.subrange(0, 16),
    {
        self.pieces.white()
    }

    /// Puts a new piece on the square in file `x` and rank `y`. The piece
    /// takes the next free slot of its color and is in play at once.
    pub fn add_new_piece(&mut self, color: Color, t: Type, x: i8, y: i8)
        requires
            on_board(x as int, y as int),
            old(self)@.well_shaped(),
            old(self)@.used(color) < 16,
        ensures
            final(self)@ == old(self)@.place(color, t, Position::at(x as int, y as int)),
            final(self)@.well_shaped(),
            old(self).wf() && !old(self)@.occupied(x as int, y as int) ==> final(self).wf(),
            final(self)@.occupied(x as int, y as int),
            final(self)@.piece(final(self)@.ref_at(x as int, y as int))@ == (PieceView {
                kind: t,
                color,
                active: true,
                position: Position::at(x as int, y as int),
            }),
            final(self)@.ref_at(x as int, y as int)@ == (RefView {
                active: true,
                color,
                slot: old(self)@.used(color),
            }),
            forall|i: int, j: int|
                on_board(i, j) && !(i == x && j == y) ==> #[trigger] final(self)@.occupied(i, j)
                    == old(self)@.occupied(i, j),
            final(self)@.used(color) == old(self)@.used(color) + 1,
            final(self)@.used(color.spec_other()) == old(self)@.used(color.spec_other()),
    {
        broadcast use Piece::lemma_make;
        broadcast use PieceRef::lemma_make;
        broadcast use PieceRef::lemma_make_own;
        broadcast use PieceRef::lemma_slot_range;
        broadcast use Position::lemma_at;
        broadcast use Position::lemma_same_square;

        let position = Position::new(x, y);
        let mut piece = Piece::new(color, t, position);
        piece.set_active(true);
        let pref = self.pieces.add_new_piece(piece);
        self.board.piece_refs[position.index()] = pref;
        proof {
            let a = old(self)@;
            let b = self@;
            assert(b.pieces =~= a.place(color, t, position).pieces);
            assert(b.squares =~= a.place(color, t, position).squares);
            if a.wf() && !a.occupied(x as int, y as int) {
                let n = a.next_slot(color);
                assert(a.slot_ok(n));
                assert(a.square_ok(sq(x as int, y as int)));
                assert(slot_ref(n) == pref);
                assert forall|s: int| 0 <= s < 32 implies #[trigger] b.slot_ok(s) by {
                    assert(a.slot_ok(s));
                    if s != n && a.pieces[s]@.active {
                        assert(a.square_ok(a.pieces[s]@.position@));
                    }
                }
                assert forall|q: int| 0 <= q < 64 implies #[trigger] b.square_ok(q) by {
                    assert(a.square_ok(q));
                    if q != position@ && a.squares[q]@.active {
                        assert(a.slot_ok(a.squares[q]@.flat()));
                    }
                }
            }
        }
    }

    pub fn piece_at(&self, position: Position) -> (r: Option<&Piece>)
        requires
            position.wf(),
        ensures
            match r {
                Some(p) => self@.piece_at(position) == Some(*p),
                None => self@.piece_at(position).is_none(),
            },
    {
        let pref = self.board.get(position);
        if pref.active() {
            Some(self.pieces.get(pref))
        } else {
            None
        }
    }

    /// The reference stored for a square.
    pub fn ref_at(&self, position: Position) -> (r: PieceRef)
        requires
            position.wf(),
        ensures
            r == self@.squares[position@],
    {
        self.board.get(position)
    }

    pub fn piece_at_xy(&self, x: i8, y: i8) -> (r: Option<&Piece>)
        requires
            on_board(x as int, y as int),
        ensures
            match r {
                Some(p) => self@.piece_at(Position::at(x as int, y as int)) == Some(*p),
                None => self@.piece_at(Position::at(x as int, y as int)).is_none(),
            },
            r.is_some() == self@.occupied(x as int, y as int),
            r matches Some(p) ==> *p == self@.piece(self@.ref_at(x as int, y as int)),
    {
        broadcast use Position::lemma_at;

        self.piece_at(Position::new(x, y))
    }
}

/// Move generation. Every generator writes the moves it finds into the front
/// of a buffer the caller owns, and returns how many it wrote.
impl Board {
    /// Writes at `at` the move of a piece onto the square `(x, y)`, if it has
    /// one there.
    fn step_into(
        &self,
        pref: PieceRef,
        piece: &Piece,
        x: i8,
        y: i8,
        flags: MoveFlags,
        buffer: &mut [Move],
        at: usize,
    ) -> (end: usize)
        requires
            at + self@.step_moves(pref, *piece, x as int, y as int, flags).len() <= old(
                buffer,
            )@.len(),
        ensures
            end == at + self@.step_moves(pref, *piece, x as int, y as int, flags).len(),
            written(
                old(buffer)@,
                final(buffer)@,
                at as int,
                self@.step_moves(pref, *piece, x as int, y as int, flags),
            ),
    {
        broadcast use Position::lemma_at;

        if x < 0 || x > 7 || y < 0 || y > 7 {
            return at;
        }
        let p = Position::new(x, y);
        let target_ref = self.board.get(p);
        if target_ref.active() && target_ref.color() != piece.color() {
            buffer[at] = Move::new_capture(pref, target_ref, flags);
            at + 1
        } else if !target_ref.active() {
            buffer[at] = Move::new_move(pref, piece.pos(), p, flags);
            at + 1
        } else {
            at
        }
    }

    /// Writes at `at` the moves of a piece along the ray in direction
    /// `(dx, dy)`.
    #[verifier::rlimit(50)]
    fn ray_into(
        &self,
        pref: PieceRef,
        piece: &Piece,
        dx: i8,
        dy: i8,
        flags: MoveFlags,
        buffer: &mut [Move],
        at: usize,
    ) -> (end: usize)
        requires
            piece@.position.wf(),
            -1 <= dx <= 1,
            -1 <= dy <= 1,
            at + self@.ray(pref, *piece, dx as int, dy as int, flags).len() <= old(buffer)@.len(),
        ensures
            end == at + self@.ray(pref, *piece, dx as int, dy as int, flags).len(),
            written(
                old(buffer)@,
                final(buffer)@,
                at as int,
                self@.ray(pref, *piece, dx as int, dy as int, flags),
            ),
    {
        broadcast use Position::lemma_at;

        let start = piece.pos();
        let (x0, y0) = start.xy();
        let mut x: i8 = x0 + dx;
        let mut y: i8 = y0 + dy;
        let mut k: i8 = 1;
        let mut count: usize = at;
        let mut blocked = false;
        let ghost whole = self@.ray(pref, *piece, dx as int, dy as int, flags);
        let ghost mut done: Seq<Move> = Seq::empty();
        while !blocked && k < 8 && 0 <= x && x <= 7 && 0 <= y && y <= 7
            invariant
                1 <= k <= 8,
                -1 <= dx <= 1,
                -1 <= dy <= 1,
                -1 <= x <= 8,
                -1 <= y <= 8,
                start == piece@.position,
                whole == self@.ray(pref, *piece, dx as int, dy as int, flags),
                at + whole.len() <= old(buffer)@.len(),
                count == at + done.len(),
                written(old(buffer)@, buffer@, at as int, done),
                blocked ==> whole == done,
                !blocked ==> whole == done + self@.ray_moves(
                    pref,
                    *piece,
                    x as int,
                    y as int,
                    dx as int,
                    dy as int,
                    k as int,
                    flags,
                ),
            decreases
                    (if blocked {
                        0int
                    } else {
                        9 - k
                    }),
        {
            let ghost before = buffer@;
            let p = Position::new(x, y);
            let target_ref = self.board.get(p);
            if target_ref.active() {
                if target_ref.color() != piece.color() {
                    let m = Move::new_capture(pref, target_ref, flags);
                    buffer[count] = m;
                    proof {
                        lemma_written_twice(
                            old(buffer)@,
                            before,
                            buffer@,
                            at as int,
                            done,
                            seq![m],
                        );
                        done = done + seq![m];
                    }
                    count += 1;
                }
                blocked = true;
            } else {
                let m = Move::new_move(pref, start, p, flags);
                buffer[count] = m;
                proof {
                    lemma_written_twice(old(buffer)@, before, buffer@, at as int, done, seq![m]);
                    let rest = self@.ray_moves(
                        pref,
                        *piece,
                        x + dx,
                        y + dy,
                        dx as int,
                        dy as int,
                        k + 1,
                        flags,
                    );
                    assert(done + (seq![m] + rest) =~= (done + seq![m]) + rest);
                    done = done + seq![m];
                }
                count += 1;
                x = x + dx;
                y = y + dy;
                k = k + 1;
            }
        }
        proof {
            assert(done + Seq::<Move>::empty() =~= done);
        }
        count
    }

    /// Writes at `at` a pawn's capture onto the square `(x, y)`, if it has
    /// one there.
    fn pawn_capture_into(
        &self,
        pref: PieceRef,
        enemy: Color,
        x: i8,
        y: i8,
        promote: bool,
        buffer: &mut [Move],
        at: usize,
    ) -> (end: usize)
        requires
            at + self@.pawn_capture(pref, enemy, x as int, y as int, promote).len() <= old(
                buffer,
            )@.len(),
        ensures
            end == at + self@.pawn_capture(pref, enemy, x as int, y as int, promote).len(),
            written(
                old(buffer)@,
                final(buffer)@,
                at as int,
                self@.pawn_capture(pref, enemy, x as int, y as int, promote),
            ),
    {
        broadcast use Position::lemma_at;

        if x < 0 || x > 7 || y < 0 || y > 7 {
            return at;
        }
        let target_ref = self.board.get(Position::new(x, y));
        if target_ref.active() && target_ref.color() == enemy {
            if promote {
                buffer[at] = Move::new_capture_and_promote(pref, target_ref, Type::Queen);
            } else {
                buffer[at] = Move::new_capture(pref, target_ref, MoveFlags::empty());
            }
            at + 1
        } else {
            at
        }
    }

    /// Writes a pawn's moves into the front of the buffer.
    #[verifier::rlimit(50)]
    pub fn insert_pawn_moves(&self, pref: PieceRef, pawn: &Piece, buffer: &mut [Move]) -> (count:
        usize)
        requires
            pawn@.position.wf(),
            self@.pawn_moves(pref, *pawn).len() <= old(buffer)@.len(),
        ensures
            count == self@.pawn_moves(pref, *pawn).len(),
            written(old(buffer)@, final(buffer)@, 0, self@.pawn_moves(pref, *pawn)),
    {
        broadcast use Position::lemma_at;

        let p = pawn.pos();
        let (x, y) = p.xy();
        let color = pawn.color();
        let enemy = color.other();
        let white = color == Color::White;
        let dir: i8 = if white {
            1
        } else {
            -1
        };
        let last: i8 = if white {
            7
        } else {
            0
        };
        let start: i8 = if white {
            1
        } else {
            6
        };
        let ahead: i8 = y + dir;
        if ahead < 0 || ahead > 7 {
            return 0;
        }
        let promote = ahead == last;
        let ghost pushes = self@.pawn_pushes(pref, *pawn);
        let ghost left = self@.pawn_capture(pref, enemy, x - 1, ahead as int, promote);
        let ghost right = self@.pawn_capture(pref, enemy, x + 1, ahead as int, promote);
        let mut count: usize = 0;
        if !self.board.get(Position::new(x, ahead)).active() {
            if promote {
                buffer[count] = Move::new_promote(pref, Type::Queen, Position::new(x, ahead));
                count += 1;
            } else {
                buffer[count] = Move::new_move(pref, p, Position::new(x, ahead), MoveFlags::empty());
                count += 1;
                if y == start && !self.board.get(Position::new(x, ahead + dir)).active() {
                    buffer[count] = Move::new_move(
                        pref,
                        p,
                        Position::new(x, ahead + dir),
                        MoveFlags::empty(),
                    );
                    count += 1;
                }
            }
        }
        assert(written(old(buffer)@, buffer@, 0, pushes));
        let ghost after_pushes = buffer@;
        count = self.pawn_capture_into(pref, enemy, x - 1, ahead, promote, buffer, count);
        let ghost after_left = buffer@;
        count = self.pawn_capture_into(pref, enemy, x + 1, ahead, promote, buffer, count);
        proof {
            lemma_written_twice(old(buffer)@, after_pushes, after_left, 0, pushes, left);
            lemma_written_twice(old(buffer)@, after_left, buffer@, 0, pushes + left, right);
        }
        count
    }

    /// Writes a knight's moves into the front of the buffer.
    pub fn insert_knight_moves(&self, pref: PieceRef, knight: &Piece, buffer: &mut [Move]) -> (count:
        usize)
        requires
            knight@.position.wf(),
            self@.knight_moves(pref, *knight).len() <= old(buffer)@.len(),
        ensures
            count == self@.knight_moves(pref, *knight).len(),
            written(old(buffer)@, final(buffer)@, 0, self@.knight_moves(pref, *knight)),
    {
        let mut count: usize = 0;
        let vdx: [i8; 8] = [-1, -2, -2, -1, 1, 2, 2, 1];
        let vdy: [i8; 8] = [2, 1, -1, -2, -2, -1, 1, 2];
        let (x0, y0) = knight.pos().xy();
        let mut i: usize = 0;
        proof {
            self@.lemma_knight_steps_grow(pref, *knight, 8);
        }
        while i < 8
            invariant
                0 <= i <= 8,
                x0 == knight@.position.col(),
                y0 == knight@.position.row(),
                knight@.position.wf(),
                forall|j: int| 0 <= j < 8 ==> vdx[j] == knight_dx(j) && vdy[j] == knight_dy(j),
                self@.knight_steps(pref, *knight, 8).len() <= old(buffer)@.len(),
                count == self@.knight_steps(pref, *knight, i as int).len(),
                written(old(buffer)@, buffer@, 0, self@.knight_steps(pref, *knight, i as int)),
            decreases 8 - i,
        {
            let ghost before = buffer@;
            proof {
                self@.lemma_knight_steps_grow(pref, *knight, 8);
            }
            count = self.step_into(
                pref,
                knight,
                x0 + vdx[i],
                y0 + vdy[i],
                MoveFlags::empty(),
                buffer,
                count,
            );
            proof {
                lemma_written_twice(
                    old(buffer)@,
                    before,
                    buffer@,
                    0,
                    self@.knight_steps(pref, *knight, i as int),
                    self@.step_moves(
                        pref,
                        *knight,
                        x0 + knight_dx(i as int),
                        y0 + knight_dy(i as int),
                        MoveFlags::spec_empty(),
                    ),
                );
            }
            i += 1;
        }
        count
    }

    /// Writes a king's moves into the front of the buffer: its steps, then
    /// its castling moves. `board_flags` are the castling rights the king's
    /// side has used up.
    #[verifier::rlimit(50)]
    pub fn insert_king_moves(
        &self,
        pref: PieceRef,
        king: &Piece,
        board_flags: &MoveFlags,
        buffer: &mut [Move],
    ) -> (count: usize)
        requires
            king@.position.wf(),
            self@.king_moves(pref, *king, *board_flags).len() <= old(buffer)@.len(),
        ensures
            count == self@.king_moves(pref, *king, *board_flags).len(),
            written(old(buffer)@, final(buffer)@, 0, self@.king_moves(pref, *king, *board_flags)),
    {
        broadcast use Position::lemma_at;

        let mut count: usize = 0;
        let vdx: [i8; 8] = [0, -1, -1, -1, 0, 1, 1, 1];
        let vdy: [i8; 8] = [1, 1, 0, -1, -1, -1, 0, 1];
        let (x0, y0) = king.pos().xy();
        let mut flags = MoveFlags::empty();
        if !board_flags.contains(MoveFlags::king_moved()) {
            flags.set(MoveFlags::king_moved(), true);
        }
        assert(flags == king_flags(*board_flags));
        let ghost castles = self@.castle_moves(pref, *king, *board_flags);
        let mut i: usize = 0;
        proof {
            self@.lemma_king_steps_grow(pref, *king, flags, 8);
        }
        while i < 8
            invariant
                0 <= i <= 8,
                x0 == king@.position.col(),
                y0 == king@.position.row(),
                king@.position.wf(),
                forall|j: int| 0 <= j < 8 ==> vdx[j] == king_dx(j) && vdy[j] == king_dy(j),
                self@.king_steps(pref, *king, flags, 8).len() + castles.len() <= old(
                    buffer,
                )@.len(),
                count == self@.king_steps(pref, *king, flags, i as int).len(),
                written(old(buffer)@, buffer@, 0, self@.king_steps(pref, *king, flags, i as int)),
            decreases 8 - i,
        {
            let ghost before = buffer@;
            proof {
                self@.lemma_king_steps_grow(pref, *king, flags, 8);
            }
            count = self.step_into(pref, king, x0 + vdx[i], y0 + vdy[i], flags, buffer, count);
            proof {
                lemma_written_twice(
                    old(buffer)@,
                    before,
                    buffer@,
                    0,
                    self@.king_steps(pref, *king, flags, i as int),
                    self@.step_moves(
                        pref,
                        *king,
                        x0 + king_dx(i as int),
                        y0 + king_dy(i as int),
                        flags,
                    ),
                );
            }
            i += 1;
        }
        let ghost steps = self@.king_steps(pref, *king, flags, 8);
        let ghost after_steps = buffer@;
        let end = self.castle_into(pref, king, board_flags, buffer, count);
        proof {
            lemma_written_twice(
                old(buffer)@,
                after_steps,
                buffer@,
                0,
                steps,
                self@.castle_moves(pref, *king, *board_flags),
            );
        }
        end
    }

    /// Writes at `at` the castling moves of a king.
    #[verifier::rlimit(50)]
    fn castle_into(
        &self,
        pref: PieceRef,
        king: &Piece,
        board_flags: &MoveFlags,
        buffer: &mut [Move],
        at: usize,
    ) -> (end: usize)
        requires
            king@.position.wf(),
            at + self@.castle_moves(pref, *king, *board_flags).len() <= old(buffer)@.len(),
        ensures
            end == at + self@.castle_moves(pref, *king, *board_flags).len(),
            written(
                old(buffer)@,
                final(buffer)@,
                at as int,
                self@.castle_moves(pref, *king, *board_flags),
            ),
    {
        broadcast use Position::lemma_at;

        let y0 = king.pos().y();
        let mut count: usize = at;
        if board_flags.king {
            return at;
        }
        let ghost mut done: Seq<Move> = Seq::empty();
        if !board_flags.queen_rook && !self.board.get(Position::new(1, y0)).active()
            && !self.board.get(Position::new(2, y0)).active() && !self.board.get(
            Position::new(3, y0),
        ).active() {
            let m = Move::new_castle(
                pref,
                MoveFlags { king: true, queen_rook: true, king_rook: false },
            );
            buffer[count] = m;
            count += 1;
            proof {
                done = seq![m];
            }
        }
        let ghost between = buffer@;
        assert(written(old(buffer)@, between, at as int, done));
        if !board_flags.king_rook && !self.board.get(Position::new(5, y0)).active()
            && !self.board.get(Position::new(6, y0)).active() {
            let m = Move::new_castle(
                pref,
                MoveFlags { king: true, king_rook: true, queen_rook: false },
            );
            buffer[count] = m;
            count += 1;
            proof {
                lemma_written_twice(old(buffer)@, between, buffer@, at as int, done, seq![m]);
                done = done + seq![m];
            }
        }
        proof {
            assert(done =~= self@.castle_moves(pref, *king, *board_flags));
        }
        count
    }

    /// Writes a rook's moves into the front of the buffer. `board_flags` are
    /// the castling rights the rook's side has used up; a move of a rook
    /// that stands on the a-file or the h-file carries the flag of that side
    /// of the board unless it is already used up.
    pub fn insert_rook_moves(
        &self,
        pref: PieceRef,
        rook: &Piece,
        board_flags: &MoveFlags,
        buffer: &mut [Move],
    ) -> (count: usize)
        requires
            rook@.position.wf(),
            self@.rook_moves(pref, *rook, *board_flags).len() <= old(buffer)@.len(),
        ensures
            count == self@.rook_moves(pref, *rook, *board_flags).len(),
            written(old(buffer)@, final(buffer)@, 0, self@.rook_moves(pref, *rook, *board_flags)),
    {
        let x0 = rook.pos().x();
        let mut flags = MoveFlags::empty();
        if !board_flags.contains(MoveFlags::queen_rook_moved()) && x0 == 0 {
            flags.set(MoveFlags::queen_rook_moved(), true);
        } else if !board_flags.contains(MoveFlags::king_rook_moved()) && x0 == 7 {
            flags.set(MoveFlags::king_rook_moved(), true);
        }
        assert(flags == rook_flags(*board_flags, x0 as int));
        let ghost r1 = self@.ray(pref, *rook, -1, 0, flags);
        let ghost r2 = self@.ray(pref, *rook, 1, 0, flags);
        let ghost r3 = self@.ray(pref, *rook, 0, 1, flags);
        let ghost r4 = self@.ray(pref, *rook, 0, -1, flags);
        let mut count: usize = 0;
        count = self.ray_into(pref, rook, -1, 0, flags, buffer, count);
        let ghost b1 = buffer@;
        count = self.ray_into(pref, rook, 1, 0, flags, buffer, count);
        let ghost b2 = buffer@;
        count = self.ray_into(pref, rook, 0, 1, flags, buffer, count);
        let ghost b3 = buffer@;
        count = self.ray_into(pref, rook, 0, -1, flags, buffer, count);
        proof {
            lemma_written_twice(old(buffer)@, b1, b2, 0, r1, r2);
            lemma_written_twice(old(buffer)@, b2, b3, 0, r1 + r2, r3);
            lemma_written_twice(old(buffer)@, b3, buffer@, 0, r1 + r2 + r3, r4);
        }
        count
    }

    /// Writes a bishop's moves into the front of the buffer.
    pub fn insert_bishop_moves(&self, pref: PieceRef, bishop: &Piece, buffer: &mut [Move]) -> (count:
        usize)
        requires
            bishop@.position.wf(),
            self@.bishop_moves(pref, *bishop).len() <= old(buffer)@.len(),
        ensures
            count == self@.bishop_moves(pref, *bishop).len(),
            written(old(buffer)@, final(buffer)@, 0, self@.bishop_moves(pref, *bishop)),
    {
        let flags = MoveFlags::empty();
        let ghost r1 = self@.ray(pref, *bishop, 1, 1, flags);
        let ghost r2 = self@.ray(pref, *bishop, -1, 1, flags);
        let ghost r3 = self@.ray(pref, *bishop, -1, -1, flags);
        let ghost r4 = self@.ray(pref, *bishop, 1, -1, flags);
        let mut count: usize = 0;
        count = self.ray_into(pref, bishop, 1, 1, flags, buffer, count);
        let ghost b1 = buffer@;
        count = self.ray_into(pref, bishop, -1, 1, flags, buffer, count);
        let ghost b2 = buffer@;
        count = self.ray_into(pref, bishop, -1, -1, flags, buffer, count);
        let ghost b3 = buffer@;
        count = self.ray_into(pref, bishop, 1, -1, flags, buffer, count);
        proof {
            lemma_written_twice(old(buffer)@, b1, b2, 0, r1, r2);
            lemma_written_twice(old(buffer)@, b2, b3, 0, r1 + r2, r3);
            lemma_written_twice(old(buffer)@, b3, buffer@, 0, r1 + r2 + r3, r4);
        }
        count
    }

    /// Writes a queen's moves into the front of the buffer: those of a rook,
    /// then those of a bishop.
    pub fn insert_queen_moves(&self, pref: PieceRef, queen: &Piece, buffer: &mut [Move]) -> (count:
        usize)
        requires
            queen@.position.wf(),
            self@.queen_moves(pref, *queen).len() <= old(buffer)@.len(),
        ensures
            count == self@.queen_moves(pref, *queen).len(),
            written(old(buffer)@, final(buffer)@, 0, self@.queen_moves(pref, *queen)),
    {
        let ghost straight = self@.rook_moves(pref, *queen, MoveFlags::spec_full());
        let ghost diagonal = self@.bishop_moves(pref, *queen);
        let full = MoveFlags::full();
        let capacity = buffer.len();
        let first = self.insert_rook_moves(pref, queen, &full, buffer);
        let ghost middle = buffer@;
        let (_, rest) = buffer.split_at_mut(first);
        let second = self.insert_bishop_moves(pref, queen, rest);
        proof {
            lemma_written_behind(old(buffer)@, middle, buffer@, rest@, straight, diagonal);
            assert((straight + diagonal).len() == first + second <= capacity);
        }
        first + second
    }

    /// Writes the moves of one piece into the front of the buffer.
    pub fn insert_piece_moves(&self, pref: PieceRef, piece: &Piece, buffer: &mut [Move]) -> (count:
        usize)
        requires
            piece@.position.wf(),
            self@.piece_moves(pref, *piece).len() <= old(buffer)@.len(),
        ensures
            count == self@.piece_moves(pref, *piece).len(),
            written(old(buffer)@, final(buffer)@, 0, self@.piece_moves(pref, *piece)),
    {
        let flags = if piece.color() == Color::White {
            &self.white_move_flags
        } else {
            &self.black_move_flags
        };
        match piece.t() {
            Type::Pawn => self.insert_pawn_moves(pref, piece, buffer),
            Type::Rook => self.insert_rook_moves(pref, piece, flags, buffer),
            Type::Bishop => self.insert_bishop_moves(pref, piece, buffer),
            Type::Queen => self.insert_queen_moves(pref, piece, buffer),
            Type::King => self.insert_king_moves(pref, piece, flags, buffer),
            Type::Knight => self.insert_knight_moves(pref, piece, buffer),
        }
    }

    /// Writes all moves of a side into the front of the buffer, piece by
    /// piece in the order of their slots.
    pub fn insert_all_moves(&self, color: Color, buffer: &mut [Move]) -> (count: usize)
        requires
            self.wf(),
            self@.all_moves(color).len() <= old(buffer)@.len(),
        ensures
            count == self@.all_moves(color).len(),
            written(old(buffer)@, final(buffer)@, 0, self@.all_moves(color)),
    {
        let base: usize = if color == Color::White {
            0
        } else {
            16
        };
        let mut count: usize = 0;
        let mut i: usize = 0;
        let capacity = buffer.len();
        proof {
            self@.lemma_moves_of_slots_grow(color, 16);
        }
        while i < 16
            invariant
                0 <= i <= 16,
                capacity == old(buffer)@.len(),
                base == 16 * color.bit(),
                self.wf(),
                self@.moves_of_slots(color, 16).len() <= old(buffer)@.len(),
                count == self@.moves_of_slots(color, i as int).len(),
                written(old(buffer)@, buffer@, 0, self@.moves_of_slots(color, i as int)),
            decreases 16 - i,
        {
            let p = self.pieces.pieces[base + i];
            proof {
                self@.lemma_moves_of_slots_grow(color, 16);
                assert(self@.slot_ok(base + i));
            }
            if p.active() {
                let pref = PieceRef::new(color, i);
                let ghost middle = buffer@;
                let (_, rest) = buffer.split_at_mut(count);
                let more = self.insert_piece_moves(pref, &p, rest);
                proof {
                    lemma_written_behind(
                        old(buffer)@,
                        middle,
                        buffer@,
                        rest@,
                        self@.moves_of_slots(color, i as int),
                        self@.piece_moves(pref, p),
                    );
                    assert(self@.moves_of_slots(color, i + 1).len() == count + more);
                }
                count += more;
            } else {
                assert(self@.moves_of_slots(color, i + 1) =~= self@.moves_of_slots(
                    color,
                    i as int,
                ));
            }
            i += 1;
        }
        count
    }
}

/// Making moves and taking them back.
impl Board {
    /// Moves whatever stands on the first square to the second, which must
    /// be empty.
    fn move_piece(&mut self, start: (i8, i8), goal: (i8, i8))
        requires
            old(self).wf(),
            on_board(start.0 as int, start.1 as int),
            on_board(goal.0 as int, goal.1 as int),
            old(self)@.occupied(start.0 as int, start.1 as int),
            !old(self)@.occupied(goal.0 as int, goal.1 as int),
        ensures
            final(self)@ == old(self)@.slide(
                Position::at(start.0 as int, start.1 as int),
                Position::at(goal.0 as int, goal.1 as int),
            ),
    {
        broadcast use Position::lemma_at;

        let from = Position::new(start.0, start.1);
        let to = Position::new(goal.0, goal.1);
        let pref = self.board.piece_refs[from.index()];
        proof {
            assert(self@.square_ok(from@));
            crate::reversal::lemma_ref_names_slot(pref);
            assert(self@.slot_ok(pref@.flat()));
        }
        self.board.piece_refs[to.index()] = pref;
        self.board.piece_refs[from.index()] = PieceRef::null();
        self.pieces.pieces[pref.index()].set_position(to);
        proof {
            let b = old(self)@.slide(from, to);
            assert(self@.squares =~= b.squares);
            assert(self@.pieces =~= b.pieces);
        }
    }

    /// Adds the flags of a move to those its side has used up.
    fn add_flags(&mut self, color: Color, flags: MoveFlags)
        ensures
            final(self)@ == old(self)@.or_flags(color, flags),
    {
        if color == Color::White {
            self.white_move_flags = self.white_move_flags.union(flags);
        } else {
            self.black_move_flags = self.black_move_flags.union(flags);
        }
    }

    /// Toggles the flags of a move in those its side has used up.
    fn toggle_flags(&mut self, color: Color, flags: MoveFlags)
        ensures
            final(self)@ == old(self)@.xor_flags(color, flags),
    {
        if color == Color::White {
            self.white_move_flags = self.white_move_flags.toggle(flags);
        } else {
            self.black_move_flags = self.black_move_flags.toggle(flags);
        }
    }

    /// The mover takes the target: they swap squares and the target leaves
    /// play.
    fn capture(&mut self, pref: PieceRef, target: PieceRef)
        requires
            old(self).wf(),
            old(self)@.in_play(pref),
            old(self)@.in_play(target),
            target@.color != pref@.color,
        ensures
            final(self)@ == old(self)@.take(pref, target),
    {
        proof {
            self@.lemma_in_play(pref);
            self@.lemma_in_play(target);
        }
        let start = self.pieces.pieces[pref.index()].pos();
        let end = self.pieces.pieces[target.index()].pos();
        self.pieces.pieces[pref.index()].set_position(end);
        self.pieces.pieces[target.index()].set_position(start);
        proof {
            broadcast use Piece::lemma_make;

        }
        self.pieces.pieces[target.index()].set_active(false);
        self.board.piece_refs[end.index()] = pref;
        self.board.piece_refs[start.index()] = PieceRef::null();
        proof {
            let b = old(self)@.take(pref, target);
            assert(self@.squares =~= b.squares);
            assert(self@.pieces =~= b.pieces);
        }
    }

    /// The inverse of `capture`.
    fn release(&mut self, pref: PieceRef, target: PieceRef)
        requires
            old(self).wf(),
            old(self)@.in_play(pref),
            old(self)@.taken(target),
            target@.color != pref@.color,
            old(self)@.vacant(old(self)@.piece(target)@.position),
        ensures
            final(self)@ == old(self)@.untake(pref, target),
    {
        proof {
            self@.lemma_in_play(pref);
            self@.lemma_taken(target);
        }
        let end = self.pieces.pieces[pref.index()].pos();
        let start = self.pieces.pieces[target.index()].pos();
        self.pieces.pieces[pref.index()].set_position(start);
        self.pieces.pieces[target.index()].set_position(end);
        proof {
            broadcast use Piece::lemma_make;

        }
        self.pieces.pieces[target.index()].set_active(true);
        self.board.piece_refs[start.index()] = pref;
        self.board.piece_refs[end.index()] = target;
        proof {
            let b = old(self)@.untake(pref, target);
            assert(self@.squares =~= b.squares);
            assert(self@.pieces =~= b.pieces);
        }
    }

    /// The piece goes from one square to another, which is empty.
    fn shift(&mut self, pref: PieceRef, from: Position, to: Position)
        requires
            old(self).wf(),
            old(self)@.in_play(pref),
            old(self)@.piece(pref)@.position == from,
            old(self)@.vacant(to),
        ensures
            final(self)@ == old(self)@.relocate(pref, from, to),
    {
        proof {
            self@.lemma_in_play(pref);
        }
        self.board.piece_refs[to.index()] = pref;
        self.board.piece_refs[from.index()] = PieceRef::null();
        self.pieces.pieces[pref.index()].set_position(to);
        proof {
            let b = old(self)@.relocate(pref, from, to);
            assert(self@.squares =~= b.squares);
            assert(self@.pieces =~= b.pieces);
        }
    }

    /// The piece becomes a piece of another type.
    fn change_type(&mut self, pref: PieceRef, t: Type)
        requires
            old(self).wf(),
            old(self)@.in_play(pref),
        ensures
            final(self)@ == old(self)@.retype(pref, t),
    {
        proof {
            self@.lemma_in_play(pref);
        }
        self.pieces.pieces[pref.index()].set_type(t);
        proof {
            assert(self@.pieces =~= old(self)@.retype(pref, t).pieces);
        }
    }

    /// Makes a move on the board.
    #[verifier::rlimit(50)]
    pub fn make_move(&mut self, m: &Move)
        requires
            old(self).wf(),
            old(self)@.can_apply(*m),
        ensures
            final(self)@ == old(self)@.apply(*m),
            final(self).wf(),
            final(self)@.can_revert(*m),
    {
        broadcast use Position::lemma_at;

        proof {
            self@.lemma_apply_wf(*m);
            self@.lemma_in_play(m.piece_ref);
        }
        let color = m.piece_ref.color();
        match m.action {
            Action::Move { start, end } => {
                self.shift(m.piece_ref, start, end);
                self.add_flags(color, m.flags);
            },
            Action::Capture { target } => {
                self.capture(m.piece_ref, target);
                self.add_flags(color, m.flags);
            },
            Action::Promote { t, end } => {
                let start = self.pieces.pieces[m.piece_ref.index()].pos();
                proof {
                    self@.lemma_relocate_wf(m.piece_ref, start, end);
                }
                self.shift(m.piece_ref, start, end);
                self.change_type(m.piece_ref, t);
            },
            Action::CaptureAndPromote { target, t } => {
                proof {
                    self@.lemma_take_wf(m.piece_ref, target);
                }
                self.capture(m.piece_ref, target);
                self.change_type(m.piece_ref, t);
            },
            Action::NoAction => {},
            Action::Castle => {
                let y: i8 = if color == Color::White {
                    0
                } else {
                    7
                };
                proof {
                    self@.lemma_castle_step(m.piece_ref, m.flags);
                }
                if m.flags.contains(MoveFlags::queen_rook_moved()) {
                    self.move_piece((0, y), (3, y));
                    self.move_piece((4, y), (2, y));
                } else {
                    self.move_piece((7, y), (5, y));
                    self.move_piece((4, y), (6, y));
                }
                self.add_flags(color, m.flags);
            },
            Action::Evaluate => {},
        }
    }

    /// Takes back a move that was made on the board.
    #[verifier::rlimit(50)]
    pub fn revert_move(&mut self, m: &Move)
        requires
            old(self).wf(),
            old(self)@.can_revert(*m),
        ensures
            final(self)@ == old(self)@.revert(*m),
            final(self).wf(),
    {
        broadcast use Position::lemma_at;

        proof {
            self@.lemma_revert_wf(*m);
            self@.lemma_in_play(m.piece_ref);
        }
        let color = m.piece_ref.color();
        match m.action {
            Action::Move { start, end } => {
                self.shift(m.piece_ref, end, start);
                self.toggle_flags(color, m.flags);
            },
            Action::Capture { target } => {
                self.release(m.piece_ref, target);
                self.toggle_flags(color, m.flags);
            },
            Action::Promote { t, end } => {
                let start = if color == Color::White {
                    end.dp(0, -1)
                } else {
                    end.dp(0, 1)
                };
                proof {
                    self@.lemma_relocate_wf(m.piece_ref, end, start);
                }
                self.shift(m.piece_ref, end, start);
                self.change_type(m.piece_ref, Type::Pawn);
            },
            Action::CaptureAndPromote { target, t } => {
                proof {
                    self@.lemma_taken(target);
                    self@.lemma_untake_wf(m.piece_ref, target);
                }
                self.release(m.piece_ref, target);
                self.change_type(m.piece_ref, Type::Pawn);
            },
            Action::NoAction => {},
            Action::Castle => {
                let y: i8 = if color == Color::White {
                    0
                } else {
                    7
                };
                proof {
                    self@.lemma_uncastle_step(m.piece_ref, m.flags);
                }
                if m.flags.contains(MoveFlags::queen_rook_moved()) {
                    self.move_piece((3, y), (0, y));
                    self.move_piece((2, y), (4, y));
                } else {
                    self.move_piece((5, y), (7, y));
                    self.move_piece((6, y), (4, y));
                }
                self.toggle_flags(color, m.flags);
            },
            Action::Evaluate => {},
        }
    }

    /// Whether the reference names a piece that is in play.
    fn in_play(&self, pref: PieceRef) -> (r: bool)
        ensures
            r == self@.in_play(pref),
    {
        pref.valid() && pref.active() && self.pieces.pieces[pref.index()].active()
    }

    /// Whether the square is on the board and empty.
    fn vacant(&self, position: Position) -> (r: bool)
        ensures
            r == self@.vacant(position),
    {
        position.valid() && !self.board.piece_refs[position.index()].active()
    }

    /// Whether a castling of the king's side can be made: the king stands on
    /// the e-file of its home rank, a rook of its color in the corner that
    /// the flags name, and the squares between them are empty.
    pub fn can_castle(&self, king: PieceRef, flags: MoveFlags) -> (r: bool)
        ensures
            r == self@.can_castle(king, flags),
    {
        broadcast use Position::lemma_at;

        let color = king.color();
        let y: i8 = if color == Color::White {
            0
        } else {
            7
        };
        if !flags.queen_rook && !flags.king_rook {
            return false;
        }
        let corner = if flags.queen_rook {
            self.board.get(Position::new(0, y))
        } else {
            self.board.get(Position::new(7, y))
        };
        let between = if flags.queen_rook {
            !self.board.get(Position::new(1, y)).active() && !self.board.get(
                Position::new(2, y),
            ).active() && !self.board.get(Position::new(3, y)).active()
        } else {
            !self.board.get(Position::new(5, y)).active() && !self.board.get(
                Position::new(6, y),
            ).active()
        };
        self.board.get(Position::new(4, y)) == king && self.pieces.get(king).t() == Type::King
            && corner.active() && corner.color() == color && self.pieces.get(corner).t()
            == Type::Rook && between
    }

    /// Whether a move can be played: it can be made on this board, and it
    /// carries no castling flag that its side has already used up.
    #[verifier::rlimit(50)]
    pub fn is_playable(&self, m: &Move) -> (r: bool)
        ensures
            r == self@.playable(*m),
    {
        broadcast use Position::lemma_at;
        broadcast use Position::lemma_same_square;

        let pref = m.piece_ref;
        let color = pref.color();
        let have = self.move_flags(color);
        if (have.king && m.flags.king) || (have.king_rook && m.flags.king_rook) || (have.queen_rook
            && m.flags.queen_rook) {
            return false;
        }
        if !self.in_play(pref) {
            return false;
        }
        let piece = self.pieces.pieces[pref.index()];
        match m.action {
            Action::Move { start, end } => start == piece.pos() && self.vacant(end),
            Action::Capture { target } => self.in_play(target) && target.color() != color,
            Action::Promote { t, end } => {
                if piece.t() != Type::Pawn || !self.vacant(end) {
                    return false;
                }
                let (x, y) = end.xy();
                let from: i8 = if color == Color::White {
                    y - 1
                } else {
                    y + 1
                };
                from >= 0 && from <= 7 && piece.pos() == Position::new(x, from)
            },
            Action::CaptureAndPromote { target, t } => piece.t() == Type::Pawn && self.in_play(
                target,
            ) && target.color() != color,
            Action::Castle => self.can_castle(pref, m.flags),
            Action::NoAction => false,
            Action::Evaluate => false,
        }
    }

    /// Checks that the piece store and the square index agree: every piece
    /// in play is referred back to by the square it claims, and every square
    /// that refers to a piece is the square that piece claims.
    pub fn assert_consistency(&self) -> (ok: bool)
        ensures
            ok == self@.consistent(),
            self.wf() ==> ok,
    {
        let mut s: usize = 0;
        while s < 32
            invariant
                0 <= s <= 32,
                forall|i: int|
                    0 <= i < s && (#[trigger] self@.pieces[i])@.active ==> {
                        &&& self@.pieces[i]@.position.wf()
                        &&& self@.squares[self@.pieces[i]@.position@] == slot_ref(i)
                    },
            decreases 32 - s,
        {
            let piece = self.pieces.pieces[s];
            if piece.active() {
                let at = piece.pos().index();
                let color = if s < 16 {
                    Color::White
                } else {
                    Color::Black
                };
                if at >= 64 || self.board.piece_refs[at] != PieceRef::new(color, s % 16) {
                    proof {
                        assert(self@.pieces[s as int]@.active);
                        if self.wf() {
                            self@.lemma_wf_consistent();
                        }
                    }
                    return false;
                }
            }
            s += 1;
        }
        let mut q: usize = 0;
        while q < 64
            invariant
                0 <= q <= 64,
                forall|i: int|
                    0 <= i < q && (#[trigger] self@.squares[i])@.active ==> self@.piece(
                        self@.squares[i],
                    )@.position@ == i,
            decreases 64 - q,
        {
            let pref = self.board.piece_refs[q];
            if pref.active() {
                if self.pieces.pieces[pref.index()].pos().index() != q {
                    proof {
                        assert(self@.squares[q as int]@.active);
                        if self.wf() {
                            self@.lemma_wf_consistent();
                        }
                    }
                    return false;
                }
            }
            q += 1;
        }
        true
    }
}

} // verus!
