//! Moves keep the board well formed, and taking a move back undoes it.

use crate::board2::{Action, Move, MoveFlags};
use crate::model::{forward, home_row, slot_color, slot_ref, sq, BoardView};
use crate::piece2::{Color, Piece, PieceRef, Position, RefView, Type};
use vstd::prelude::*;

verus! {

/// A well-formed reference to a piece is the reference of the slot it names.
pub proof fn lemma_ref_names_slot(r: PieceRef)
    requires
        r.wf(),
        r@.active,
    ensures
        0 <= r@.flat() < 32,
        r == slot_ref(r@.flat()),
        slot_color(r@.flat()) == r@.color,
        r@.flat() % 16 == r@.slot,
{
    PieceRef::lemma_make_own(r);
}

/// The reference of a slot names that slot.
pub proof fn lemma_slot_ref_flat(s: int)
    requires
        0 <= s < 32,
    ensures
        slot_ref(s)@.flat() == s,
        slot_ref(s)@.active,
        slot_ref(s)@.color == slot_color(s),
        slot_ref(s).wf(),
{
    PieceRef::lemma_make(RefView { active: true, color: slot_color(s), slot: s % 16 });
}

/// The empty reference names no piece.
pub proof fn lemma_null_ref()
    ensures
        !PieceRef::spec_null()@.active,
        PieceRef::spec_null().wf(),
{
    PieceRef::lemma_make(RefView { active: false, color: Color::White, slot: 0 });
}

/// Adding flags that were not set and toggling them again changes nothing.
pub proof fn lemma_flags_round_trip(have: MoveFlags, add: MoveFlags)
    requires
        have.disjoint(add),
    ensures
        have.spec_union(add).spec_toggle(add) == have,
{
}

impl BoardView {
    /// On a well-formed board a piece in play stands on the square that
    /// refers to it.
    pub proof fn lemma_in_play(self, r: PieceRef)
        requires
            self.wf(),
            self.in_play(r),
        ensures
            0 <= r@.flat() < 32,
            self.piece(r)@.position.wf(),
            self.piece(r).wf(),
            self.squares[self.piece(r)@.position@] == r,
            self.piece(r)@.color == r@.color,
    {
        lemma_ref_names_slot(r);
        assert(self.slot_ok(r@.flat()));
    }

    /// Moving a piece in play onto an empty square keeps the board well
    /// formed.
    #[verifier::rlimit(50)]
    pub proof fn lemma_relocate_wf(self, r: PieceRef, from: Position, to: Position)
        requires
            self.wf(),
            self.in_play(r),
            self.piece(r)@.position == from,
            self.vacant(to),
        ensures
            self.relocate(r, from, to).wf(),
            self.relocate(r, from, to).in_play(r),
            self.relocate(r, from, to).piece(r)@.position == to,
            self.relocate(r, from, to).piece(r)@.kind == self.piece(r)@.kind,
            self.relocate(r, from, to).vacant(from),
            forall|q: int|
                0 <= q < 64 && q != from@ && q != to@ ==> self.relocate(r, from, to).squares[q]
                    == #[trigger] self.squares[q],
            forall|s: int|
                0 <= s < 32 && s != r@.flat() ==> self.relocate(r, from, to).pieces[s]
                    == #[trigger] self.pieces[s],
    {
        broadcast use Piece::lemma_make;

        let b = self.relocate(r, from, to);
        let s0 = r@.flat();
        self.lemma_in_play(r);
        lemma_null_ref();
        assert forall|s: int| 0 <= s < 32 implies #[trigger] b.slot_ok(s) by {
            assert(self.slot_ok(s));
            if s != s0 && self.pieces[s]@.active {
                lemma_slot_ref_flat(s);
            }
        }
        assert forall|q: int| 0 <= q < 64 implies #[trigger] b.square_ok(q) by {
            assert(self.square_ok(q));
            if q != to@ && q != from@ && self.squares[q]@.active {
                lemma_ref_names_slot(self.squares[q]);
            }
        }
    }

    /// Moving a piece onto an empty square and back changes nothing.
    pub proof fn lemma_relocate_back(self, r: PieceRef, from: Position, to: Position)
        requires
            self.wf(),
            self.in_play(r),
            self.piece(r)@.position == from,
            self.vacant(to),
        ensures
            self.relocate(r, from, to).relocate(r, to, from) == self,
    {
        broadcast use Piece::lemma_make;
        broadcast use Piece::lemma_make_own;

        let b = self.relocate(r, from, to);
        let c = b.relocate(r, to, from);
        self.lemma_in_play(r);
        assert(self.square_ok(to@));
        assert(c.squares =~= self.squares);
        assert(c.pieces =~= self.pieces);
    }

    /// A capture keeps the board well formed.
    #[verifier::rlimit(50)]
    pub proof fn lemma_take_wf(self, r: PieceRef, target: PieceRef)
        requires
            self.wf(),
            self.in_play(r),
            self.in_play(target),
            target@.color != r@.color,
        ensures
            self.take(r, target).wf(),
            self.take(r, target).in_play(r),
            self.take(r, target).taken(target),
            self.take(r, target).piece(r)@.position == self.piece(target)@.position,
            self.take(r, target).piece(r)@.kind == self.piece(r)@.kind,
            self.take(r, target).piece(target)@.position == self.piece(r)@.position,
            self.take(r, target).vacant(self.piece(r)@.position),
    {
        broadcast use Piece::lemma_make;

        let b = self.take(r, target);
        self.lemma_in_play(r);
        self.lemma_in_play(target);
        lemma_null_ref();
        let s0 = r@.flat();
        let t0 = target@.flat();
        assert(s0 != t0);
        lemma_ref_names_slot(target);
        assert(self.slot_ok(t0));
        assert forall|s: int| 0 <= s < 32 implies #[trigger] b.slot_ok(s) by {
            assert(self.slot_ok(s));
            if s != s0 && s != t0 && self.pieces[s]@.active {
                lemma_slot_ref_flat(s);
            }
        }
        assert forall|q: int| 0 <= q < 64 implies #[trigger] b.square_ok(q) by {
            assert(self.square_ok(q));
            if self.squares[q]@.active {
                lemma_ref_names_slot(self.squares[q]);
            }
        }
    }

    /// Taking back a capture keeps the board well formed.
    #[verifier::rlimit(50)]
    pub proof fn lemma_untake_wf(self, r: PieceRef, target: PieceRef)
        requires
            self.wf(),
            self.in_play(r),
            self.taken(target),
            target@.color != r@.color,
            self.vacant(self.piece(target)@.position),
        ensures
            self.untake(r, target).wf(),
            self.untake(r, target).in_play(r),
    {
        broadcast use Piece::lemma_make;

        let b = self.untake(r, target);
        self.lemma_in_play(r);
        self.lemma_taken(target);
        lemma_ref_names_slot(target);
        let s0 = r@.flat();
        let t0 = target@.flat();
        assert(s0 != t0);
        assert forall|s: int| 0 <= s < 32 implies #[trigger] b.slot_ok(s) by {
            assert(self.slot_ok(s));
            if s != s0 && s != t0 && self.pieces[s]@.active {
                lemma_slot_ref_flat(s);
            }
        }
        assert forall|q: int| 0 <= q < 64 implies #[trigger] b.square_ok(q) by {
            assert(self.square_ok(q));
            if self.squares[q]@.active {
                lemma_ref_names_slot(self.squares[q]);
            }
        }
    }

    /// A capture that is taken back changes nothing.
    pub proof fn lemma_take_back(self, r: PieceRef, target: PieceRef)
        requires
            self.wf(),
            self.in_play(r),
            self.in_play(target),
            target@.color != r@.color,
        ensures
            self.take(r, target).untake(r, target) == self,
    {
        broadcast use Piece::lemma_make;
        broadcast use Piece::lemma_make_own;

        let b = self.take(r, target);
        let c = b.untake(r, target);
        self.lemma_in_play(r);
        self.lemma_in_play(target);
        assert(r@.flat() != target@.flat());
        assert(c.squares =~= self.squares);
        assert(c.pieces =~= self.pieces);
    }

    /// Changing the type of a piece keeps the board well formed.
    pub proof fn lemma_retype_wf(self, r: PieceRef, kind: Type)
        requires
            self.wf(),
            r.wf(),
            r@.active,
        ensures
            self.retype(r, kind).wf(),
            self.retype(r, kind).in_play(r) == self.in_play(r),
            self.retype(r, kind).piece(r)@.position == self.piece(r)@.position,
            self.retype(r, kind).squares == self.squares,
    {
        broadcast use Piece::lemma_make;

        let b = self.retype(r, kind);
        lemma_ref_names_slot(r);
        assert forall|s: int| 0 <= s < 32 implies #[trigger] b.slot_ok(s) by {
            assert(self.slot_ok(s));
        }
        assert forall|q: int| 0 <= q < 64 implies #[trigger] b.square_ok(q) by {
            assert(self.square_ok(q));
            if self.squares[q]@.active {
                lemma_ref_names_slot(self.squares[q]);
                assert(self.slot_ok(self.squares[q]@.flat()));
            }
        }
    }

    /// Changing the type of a piece and changing it back changes nothing.
    pub proof fn lemma_retype_back(self, r: PieceRef, kind: Type)
        requires
            self.wf(),
            r.wf(),
            r@.active,
        ensures
            self.retype(r, kind).retype(r, self.piece(r)@.kind) == self,
    {
        broadcast use Piece::lemma_make;
        broadcast use Piece::lemma_make_own;

        lemma_ref_names_slot(r);
        assert(self.slot_ok(r@.flat()));
        let c = self.retype(r, kind).retype(r, self.piece(r)@.kind);
        assert(c.pieces =~= self.pieces);
    }

    /// Castling keeps the board well formed, and can be taken back.
    #[verifier::rlimit(50)]
    pub proof fn lemma_castle_wf(self, king: PieceRef, flags: MoveFlags)
        requires
            self.wf(),
            self.in_play(king),
            self.can_castle(king, flags),
        ensures
            self.castle(king@.color, flags).wf(),
            self.castle(king@.color, flags).in_play(king),
            self.castle(king@.color, flags).can_uncastle(king, flags),
            self.castle(king@.color, flags).uncastle(king@.color, flags) == self,
    {
        broadcast use Position::lemma_at;
        broadcast use Position::lemma_same_square;

        let y = home_row(king@.color);
        let (cx, rx, kx) = if flags.queen_rook {
            (0int, 3int, 2int)
        } else {
            (7int, 5int, 6int)
        };
        let corner = Position::at(cx, y);
        let rook_to = Position::at(rx, y);
        let home = Position::at(4, y);
        let king_to = Position::at(kx, y);
        let rook = self.squares[corner@];
        assert(self.square_ok(corner@));
        assert(self.square_ok(home@));
        self.lemma_relocate_wf(rook, corner, rook_to);
        self.lemma_relocate_back(rook, corner, rook_to);
        let b = self.relocate(rook, corner, rook_to);
        assert(b == self.slide(corner, rook_to));
        assert(b.squares[home@] == king);
        assert(b.square_ok(home@));
        b.lemma_relocate_wf(king, home, king_to);
        b.lemma_relocate_back(king, home, king_to);
        let c = b.relocate(king, home, king_to);
        assert(c == b.slide(home, king_to));
        assert(c == self.castle(king@.color, flags));
        // Taking it back: first the rook, then the king.
        assert(c.squares[rook_to@] == rook);
        assert(c.square_ok(rook_to@));
        assert(c.square_ok(king_to@));
        c.lemma_relocate_wf(rook, rook_to, corner);
        let d = c.relocate(rook, rook_to, corner);
        assert(d == c.slide(rook_to, corner));
        assert(d.squares[king_to@] == king);
        assert(c.piece(king)@.position == king_to);
        assert(c.piece(rook)@.position == rook_to);
        assert(king@.flat() != rook@.flat());
        c.lemma_in_play(king);
        assert(d.pieces[king@.flat()] == c.pieces[king@.flat()]);
        d.lemma_relocate_wf(king, king_to, home);
        let e = d.relocate(king, king_to, home);
        assert(e == d.slide(king_to, home));
        assert(e == c.uncastle(king@.color, flags));
        assert(e.squares =~= self.squares);
        b.lemma_in_play(king);
        self.lemma_in_play(rook);
        assert(e.pieces =~= self.pieces) by {
            broadcast use Piece::lemma_make;
            broadcast use Piece::lemma_make_own;

            assert(self.slot_ok(rook@.flat()));
            assert(self.slot_ok(king@.flat()));
        }
    }

    /// Castling is two moves onto empty squares: first the rook's, then the
    /// king's on the board that the rook's move leaves.
    pub proof fn lemma_castle_step(self, king: PieceRef, flags: MoveFlags)
        requires
            self.wf(),
            self.in_play(king),
            self.can_castle(king, flags),
        ensures
            ({
                let y = home_row(king@.color);
                let (cx, rx, kx) = if flags.queen_rook {
                    (0int, 3int, 2int)
                } else {
                    (7int, 5int, 6int)
                };
                let b = self.slide(Position::at(cx, y), Position::at(rx, y));
                &&& self.occupied(cx, y)
                &&& !self.occupied(rx, y)
                &&& b.wf()
                &&& b.occupied(4, y)
                &&& !b.occupied(kx, y)
            }),
    {
        broadcast use Position::lemma_at;
        broadcast use Position::lemma_same_square;

        let y = home_row(king@.color);
        let (cx, rx, kx) = if flags.queen_rook {
            (0int, 3int, 2int)
        } else {
            (7int, 5int, 6int)
        };
        let corner = Position::at(cx, y);
        let rook = self.squares[corner@];
        assert(self.square_ok(corner@));
        self.lemma_relocate_wf(rook, corner, Position::at(rx, y));
        assert(self.squares[sq(4, y)] == king);
        assert(self.squares[sq(kx, y)] == self.squares[sq(kx, y)]);
    }

    /// Taking back a castling is two moves onto empty squares: first the
    /// rook's, then the king's on the board that the rook's move leaves.
    pub proof fn lemma_uncastle_step(self, king: PieceRef, flags: MoveFlags)
        requires
            self.wf(),
            self.in_play(king),
            self.can_uncastle(king, flags),
        ensures
            ({
                let y = home_row(king@.color);
                let (cx, rx, kx) = if flags.queen_rook {
                    (0int, 3int, 2int)
                } else {
                    (7int, 5int, 6int)
                };
                let b = self.slide(Position::at(rx, y), Position::at(cx, y));
                &&& self.occupied(rx, y)
                &&& !self.occupied(cx, y)
                &&& b.wf()
                &&& b.occupied(kx, y)
                &&& !b.occupied(4, y)
            }),
    {
        broadcast use Position::lemma_at;
        broadcast use Position::lemma_same_square;

        let y = home_row(king@.color);
        let (cx, rx, kx) = if flags.queen_rook {
            (0int, 3int, 2int)
        } else {
            (7int, 5int, 6int)
        };
        let rook_at = Position::at(rx, y);
        let rook = self.squares[rook_at@];
        assert(self.square_ok(rook_at@));
        self.lemma_relocate_wf(rook, rook_at, Position::at(cx, y));
        assert(self.squares[sq(kx, y)] == king);
        assert(self.squares[sq(4, y)] == self.squares[sq(4, y)]);
    }

    /// On a well-formed board the piece store and the square index agree.
    pub proof fn lemma_wf_consistent(self)
        requires
            self.wf(),
        ensures
            self.consistent(),
    {
        assert forall|i: int| 0 <= i < 32 && (#[trigger] self.pieces[i])@.active implies {
            &&& self.pieces[i]@.position.wf()
            &&& self.squares[self.pieces[i]@.position@] == slot_ref(i)
        } by {
            assert(self.slot_ok(i));
        }
        assert forall|i: int| 0 <= i < 64 && (#[trigger] self.squares[i])@.active implies self.piece(
            self.squares[i],
        )@.position@ == i by {
            assert(self.square_ok(i));
        }
    }

    /// Taking back a castling keeps the board well formed.
    pub proof fn lemma_uncastle_wf(self, king: PieceRef, flags: MoveFlags)
        requires
            self.wf(),
            self.in_play(king),
            self.can_uncastle(king, flags),
        ensures
            self.uncastle(king@.color, flags).wf(),
    {
        broadcast use Position::lemma_at;
        broadcast use Position::lemma_same_square;

        let y = home_row(king@.color);
        let (cx, rx, kx) = if flags.queen_rook {
            (0int, 3int, 2int)
        } else {
            (7int, 5int, 6int)
        };
        let corner = Position::at(cx, y);
        let rook_at = Position::at(rx, y);
        let home = Position::at(4, y);
        let king_at = Position::at(kx, y);
        let rook = self.squares[rook_at@];
        assert(self.square_ok(rook_at@));
        assert(self.square_ok(king_at@));
        self.lemma_relocate_wf(rook, rook_at, corner);
        let b = self.relocate(rook, rook_at, corner);
        assert(b == self.slide(rook_at, corner));
        assert(b.squares[king_at@] == king);
        self.lemma_in_play(king);
        assert(self.piece(king)@.position == king_at);
        assert(self.piece(rook)@.position == rook_at);
        assert(king@.flat() != rook@.flat());
        assert(b.pieces[king@.flat()] == self.pieces[king@.flat()]);
        b.lemma_relocate_wf(king, king_at, home);
        assert(b.relocate(king, king_at, home) == b.slide(king_at, home));
    }

    /// A move that can be made leaves a well-formed board on which it can be
    /// taken back.
    #[verifier::rlimit(50)]
    pub proof fn lemma_apply_wf(self, m: Move)
        requires
            self.wf(),
            self.can_apply(m),
        ensures
            self.apply(m).wf(),
            self.apply(m).can_revert(m),
    {
        broadcast use Position::lemma_at;

        let r = m.piece_ref;
        let color = r@.color;
        self.lemma_in_play(r);
        match m.action {
            Action::Move { start, end } => {
                self.lemma_relocate_wf(r, start, end);
                let b = self.relocate(r, start, end);
                self.lemma_flags_keep_wf(b, self.apply(m));
            },
            Action::Capture { target } => {
                self.lemma_take_wf(r, target);
                let b = self.take(r, target);
                self.lemma_flags_keep_wf(b, self.apply(m));
            },
            Action::Promote { t, end } => {
                let start = self.piece(r)@.position;
                self.lemma_relocate_wf(r, start, end);
                let b = self.relocate(r, start, end);
                b.lemma_retype_wf(r, t);
                start.lemma_at_own_coordinates();
                end.lemma_at_own_coordinates();
            },
            Action::CaptureAndPromote { target, t } => {
                self.lemma_take_wf(r, target);
                let b = self.take(r, target);
                b.lemma_retype_wf(r, t);
                lemma_ref_names_slot(r);
                lemma_ref_names_slot(target);
                assert(b.retype(r, t).pieces[target@.flat()] == b.pieces[target@.flat()]);
            },
            Action::Castle => {
                self.lemma_castle_wf(r, m.flags);
                let b = self.castle(color, m.flags);
                self.lemma_flags_keep_wf(b, self.apply(m));
            },
            Action::NoAction => {},
            Action::Evaluate => {},
        }
    }

    /// Two boards that differ only in the castling rights are both well
    /// formed or neither is, and the same moves can be taken back on them.
    pub proof fn lemma_flags_keep_wf(self, a: BoardView, b: BoardView)
        requires
            a.squares == b.squares,
            a.pieces == b.pieces,
            a.used_white == b.used_white,
            a.used_black == b.used_black,
        ensures
            a.wf() == b.wf(),
            forall|m: Move| #[trigger] a.can_revert(m) == b.can_revert(m),
            forall|m: Move| #[trigger] a.can_apply(m) == b.can_apply(m),
    {
        if a.wf() {
            assert forall|s: int| 0 <= s < 32 implies #[trigger] b.slot_ok(s) by {
                assert(a.slot_ok(s));
            }
            assert forall|q: int| 0 <= q < 64 implies #[trigger] b.square_ok(q) by {
                assert(a.square_ok(q));
            }
        }
        if b.wf() {
            assert forall|s: int| 0 <= s < 32 implies #[trigger] a.slot_ok(s) by {
                assert(b.slot_ok(s));
            }
            assert forall|q: int| 0 <= q < 64 implies #[trigger] a.square_ok(q) by {
                assert(b.square_ok(q));
            }
        }
    }

    /// Taking back a move that can be taken back leaves a well-formed board.
    #[verifier::rlimit(50)]
    pub proof fn lemma_revert_wf(self, m: Move)
        requires
            self.wf(),
            self.can_revert(m),
        ensures
            self.revert(m).wf(),
    {
        broadcast use Position::lemma_at;

        let r = m.piece_ref;
        let color = r@.color;
        self.lemma_in_play(r);
        match m.action {
            Action::Move { start, end } => {
                self.lemma_relocate_wf(r, end, start);
                self.lemma_flags_keep_wf(self.relocate(r, end, start), self.revert(m));
            },
            Action::Capture { target } => {
                self.lemma_taken(target);
                self.lemma_untake_wf(r, target);
                self.lemma_flags_keep_wf(self.untake(r, target), self.revert(m));
            },
            Action::Promote { t, end } => {
                let start = end.shifted(0, -forward(color));
                self.lemma_relocate_wf(r, end, start);
                self.relocate(r, end, start).lemma_retype_wf(r, Type::Pawn);
            },
            Action::CaptureAndPromote { target, t } => {
                self.lemma_taken(target);
                self.lemma_untake_wf(r, target);
                self.untake(r, target).lemma_retype_wf(r, Type::Pawn);
            },
            Action::Castle => {
                self.lemma_uncastle_wf(r, m.flags);
                self.lemma_flags_keep_wf(self.uncastle(color, m.flags), self.revert(m));
            },
            Action::NoAction => {},
            Action::Evaluate => {},
        }
    }

    /// Applying a move and taking it back restores the board exactly, provided
    /// the move carries no castling flag that its side has already used up.
    #[verifier::rlimit(50)]
    pub proof fn lemma_round_trip(self, m: Move)
        requires
            self.wf(),
            self.can_apply(m),
            self.flags(m.piece_ref@.color).disjoint(m.flags),
        ensures
            self.apply(m).revert(m) == self,
    {
        broadcast use Position::lemma_at;

        let r = m.piece_ref;
        let color = r@.color;
        self.lemma_in_play(r);
        lemma_flags_round_trip(self.flags(color), m.flags);
        match m.action {
            Action::Move { start, end } => {
                self.lemma_relocate_back(r, start, end);
                let b = self.relocate(r, start, end);
                assert(self.apply(m).relocate(r, end, start) == b.relocate(r, end, start).or_flags(
                    color,
                    m.flags,
                ));
            },
            Action::Capture { target } => {
                self.lemma_take_back(r, target);
                let b = self.take(r, target);
                assert(self.apply(m).untake(r, target) == b.untake(r, target).or_flags(
                    color,
                    m.flags,
                ));
            },
            Action::Promote { t, end } => {
                let start = self.piece(r)@.position;
                self.lemma_relocate_wf(r, start, end);
                self.lemma_relocate_back(r, start, end);
                let b = self.relocate(r, start, end);
                b.lemma_retype_back(r, t);
                let c = b.retype(r, t);
                lemma_ref_names_slot(r);
                assert(c.relocate(r, end, start).retype(r, Type::Pawn).pieces =~= b.retype(
                    r,
                    t,
                ).retype(r, Type::Pawn).relocate(r, end, start).pieces) by {
                    broadcast use Piece::lemma_make;

                }
                assert(c.relocate(r, end, start).retype(r, Type::Pawn) == b.retype(r, t).retype(
                    r,
                    Type::Pawn,
                ).relocate(r, end, start));
            },
            Action::CaptureAndPromote { target, t } => {
                self.lemma_take_wf(r, target);
                self.lemma_take_back(r, target);
                let b = self.take(r, target);
                b.lemma_retype_back(r, t);
                let c = b.retype(r, t);
                lemma_ref_names_slot(r);
                lemma_ref_names_slot(target);
                assert(c.untake(r, target).retype(r, Type::Pawn).pieces =~= b.retype(r, t).retype(
                    r,
                    Type::Pawn,
                ).untake(r, target).pieces) by {
                    broadcast use Piece::lemma_make;

                }
                assert(c.untake(r, target).retype(r, Type::Pawn).squares =~= b.retype(r, t).retype(
                    r,
                    Type::Pawn,
                ).untake(r, target).squares) by {
                    broadcast use Piece::lemma_make;

                }
                assert(c.untake(r, target).retype(r, Type::Pawn) == b.retype(r, t).retype(
                    r,
                    Type::Pawn,
                ).untake(r, target));
            },
            Action::Castle => {
                self.lemma_castle_wf(r, m.flags);
                let b = self.castle(color, m.flags);
                assert(self.apply(m).uncastle(color, m.flags) == b.uncastle(
                    color,
                    m.flags,
                ).or_flags(color, m.flags));
            },
            Action::NoAction => {},
            Action::Evaluate => {},
        }
    }

    /// On a well-formed board a piece that was taken is still of the color
    /// of its slot.
    pub proof fn lemma_taken(self, target: PieceRef)
        requires
            self.wf(),
            self.taken(target),
        ensures
            self.piece(target).wf(),
            self.piece(target)@.color == target@.color,
    {
        lemma_ref_names_slot(target);
        assert(self.slot_ok(target@.flat()));
    }
}

} // verus!
