//! On the board that keeps its pieces by value too, moves keep cells and
//! lists in agreement, and unmaking a move undoes it.

use crate::board::{Action, Move};
use crate::layout::{
    back_rank, inside, lemma_potential_update, potential, potential_upto, square, Layout,
};
use crate::piece::{Color, Piece};
use vstd::prelude::*;

verus! {

impl Layout {
    /// The cells and the piece lists agree, and the evaluation fits in
    /// sixteen bits whatever becomes of the pieces.
    pub open spec fn consistent(self) -> bool {
        &&& self.well_shaped()
        &&& forall|x: int, y: int| inside(x, y) ==> #[trigger] self.cell_ok(x, y)
        &&& forall|c: Color, i: int| 0 <= i < 16 ==> #[trigger] self.slot_ok(c, i)
        &&& potential_upto(self.white, 16) <= i16::MAX
        &&& potential_upto(self.black, 16) <= i16::MAX
    }

    /// No count of moves is negative.
    pub open spec fn counted(self) -> bool {
        &&& 0 <= self.white_rights.king
        &&& 0 <= self.white_rights.king_rook
        &&& 0 <= self.white_rights.queen_rook
        &&& 0 <= self.black_rights.king
        &&& 0 <= self.black_rights.king_rook
        &&& 0 <= self.black_rights.queen_rook
    }

    /// Whether two layouts hold the same cells and lists.
    pub open spec fn same_pieces(self, other: Layout) -> bool {
        &&& self.cells == other.cells
        &&& self.white == other.white
        &&& self.black == other.black
        &&& self.used_white == other.used_white
        &&& self.used_black == other.used_black
    }

    /// Agreement of cells and lists depends on cells and lists alone.
    pub proof fn lemma_same_pieces(self, other: Layout)
        requires
            self.same_pieces(other),
            self.consistent(),
        ensures
            other.consistent(),
    {
        assert forall|x: int, y: int| inside(x, y) implies #[trigger] other.cell_ok(x, y) by {
            assert(self.cell_ok(x, y));
        }
        assert forall|c: Color, i: int| 0 <= i < 16 implies #[trigger] other.slot_ok(c, i) by {
            assert(self.slot_ok(c, i));
        }
    }

    /// A sound board is one whose cells and lists agree and whose counts of
    /// moves lie between nothing and the number of moves played.
    pub proof fn lemma_sound(self)
        ensures
            self.sound() == (self.consistent() && self.rights_ok(self.white_rights)
                && self.rights_ok(self.black_rights)),
            self.sound() ==> self.counted(),
            self.wf() ==> self.sound(),
    {
    }

    /// A piece in play stands on the board, on the cell that holds it.
    pub proof fn lemma_in_play(self, p: Piece)
        requires
            self.consistent(),
            self.in_play(p),
        ensures
            p.position.on_board(),
            self.piece_on(p.position) == Some(p),
            p.index < self.used(p.color),
    {
        assert(self.slot_ok(p.color, p.index as int));
    }

    /// A piece that goes to a free square and may change on the way stays in
    /// agreement with the board.
    #[verifier::rlimit(50)]
    pub proof fn lemma_relocate(self, from: Piece, to: Piece)
        requires
            self.consistent(),
            self.in_play(from),
            to.color == from.color,
            to.index == from.index,
            self.free(to.position),
            potential_upto(self.list(from.color), 16) - potential(from) + potential(to)
                <= i16::MAX,
        ensures
            self.relocate(from, to).consistent(),
            self.relocate(from, to).in_play(to),
            self.relocate(from, to).free(from.position),
            self.relocate(from, to).relocate(to, from) == self,
            potential_upto(self.relocate(from, to).list(from.color), 16) == potential_upto(
                self.list(from.color),
                16,
            ) - potential(from) + potential(to),
            self.relocate(from, to).list(from.color.spec_other()) == self.list(
                from.color.spec_other(),
            ),
            forall|x: int, y: int|
                inside(x, y) && square(x, y) != from.position && square(x, y) != to.position
                    ==> #[trigger] self.relocate(from, to).piece_at(x, y) == self.piece_at(x, y),
            forall|i: int|
                0 <= i < 16 && i != from.index ==> #[trigger] self.relocate(from, to).list(
                    from.color,
                )[i] == self.list(from.color)[i],
    {
        let after = self.relocate(from, to);
        self.lemma_in_play(from);
        lemma_potential_update(self.list(from.color), 16, from.index as int, Some(to));
        assert forall|x: int, y: int| inside(x, y) implies #[trigger] after.cell_ok(x, y) by {
            assert(self.cell_ok(x, y));
        }
        assert forall|c: Color, i: int| 0 <= i < 16 implies #[trigger] after.slot_ok(c, i) by {
            assert(self.slot_ok(c, i));
            if self.list(c)[i] is Some {
                let p = self.list(c)[i].unwrap();
                assert(self.cell_ok(p.position.x as int, p.position.y as int));
            }
        }
        let back = after.relocate(to, from);
        assert(back.cells =~= self.cells);
        assert(back.white =~= self.white);
        assert(back.black =~= self.black);
    }

    /// A piece that leaves the board leaves it in agreement.
    pub proof fn lemma_remove(self, piece: Piece)
        requires
            self.consistent(),
            self.in_play(piece),
        ensures
            self.remove(piece).consistent(),
            self.remove(piece).free(piece.position),
            self.remove(piece).restore(piece) == self,
            potential_upto(self.remove(piece).list(piece.color), 16) == potential_upto(
                self.list(piece.color),
                16,
            ) - potential(piece),
            self.remove(piece).list(piece.color.spec_other()) == self.list(
                piece.color.spec_other(),
            ),
            self.remove(piece).list(piece.color)[piece.index as int].is_none(),
            forall|p: Piece|
                p.color != piece.color ==> #[trigger] self.remove(piece).in_play(p)
                    == self.in_play(p),
    {
        let after = self.remove(piece);
        self.lemma_in_play(piece);
        lemma_potential_update(self.list(piece.color), 16, piece.index as int, None);
        assert forall|x: int, y: int| inside(x, y) implies #[trigger] after.cell_ok(x, y) by {
            assert(self.cell_ok(x, y));
        }
        assert forall|c: Color, i: int| 0 <= i < 16 implies #[trigger] after.slot_ok(c, i) by {
            assert(self.slot_ok(c, i));
        }
        let back = after.restore(piece);
        assert(back.cells =~= self.cells);
        assert(back.white =~= self.white);
        assert(back.black =~= self.black);
    }

    /// A piece that comes back to its free square and its empty slot leaves
    /// the board in agreement.
    pub proof fn lemma_restore(self, piece: Piece)
        requires
            self.consistent(),
            piece.index < 16,
            piece.index < self.used(piece.color),
            self.list(piece.color)[piece.index as int].is_none(),
            self.free(piece.position),
            potential_upto(self.list(piece.color), 16) + potential(piece) <= i16::MAX,
        ensures
            self.restore(piece).consistent(),
    {
        let after = self.restore(piece);
        lemma_potential_update(self.list(piece.color), 16, piece.index as int, Some(piece));
        assert forall|x: int, y: int| inside(x, y) implies #[trigger] after.cell_ok(x, y) by {
            assert(self.cell_ok(x, y));
        }
        assert forall|c: Color, i: int| 0 <= i < 16 implies #[trigger] after.slot_ok(c, i) by {
            assert(self.slot_ok(c, i));
        }
    }

    /// Castling is two moves of pieces to free squares, and so is taking it
    /// back.
    #[verifier::rlimit(50)]
    pub proof fn lemma_castle(
        self,
        king_from: int,
        king_to: int,
        rook_from: int,
        rook_to: int,
        king_side: bool,
        by: int,
    )
        requires
            self.consistent(),
            0 <= king_from < 8,
            0 <= king_to < 8,
            0 <= rook_from < 8,
            0 <= rook_to < 8,
            king_from != rook_from,
            king_to != rook_to,
            king_to != rook_from,
            self.piece_at(king_from, back_rank(self.turn())) is Some,
            self.piece_at(rook_from, back_rank(self.turn())) is Some,
            self.piece_at(king_to, back_rank(self.turn())) is None,
            self.piece_at(rook_to, back_rank(self.turn())) is None,
        ensures
            self.castle(king_from, king_to, rook_from, rook_to, king_side, by).consistent(),
            self.castle(king_from, king_to, rook_from, rook_to, king_side, by).castle(
                king_to,
                king_from,
                rook_to,
                rook_from,
                king_side,
                -by,
            ) == self,
            ({
                let y = back_rank(self.turn());
                let after = self.castle(king_from, king_to, rook_from, rook_to, king_side, by);
                let king = self.piece_at(king_from, y).unwrap();
                let rook = self.piece_at(rook_from, y).unwrap();
                let mid = self.relocate(king, king.spec_moved(square(king_to, y)));
                &&& after.piece_at(king_to, y) == Some(king.spec_moved(square(king_to, y)))
                &&& after.piece_at(rook_to, y) == Some(rook.spec_moved(square(rook_to, y)))
                &&& after.piece_at(king_from, y) is None
                &&& after.piece_at(rook_from, y) is None
                &&& self.in_play(king)
                &&& king.position == square(king_from, y)
                &&& mid.consistent()
                &&& mid.in_play(rook)
                &&& rook.position == square(rook_from, y)
                &&& mid.free(square(rook_to, y))
                &&& self.free(square(king_to, y))
            }),
    {
        let y = back_rank(self.turn());
        let king = self.piece_at(king_from, y).unwrap();
        let rook = self.piece_at(rook_from, y).unwrap();
        assert(self.cell_ok(king_from, y));
        assert(self.cell_ok(rook_from, y));
        let king2 = king.spec_moved(square(king_to, y));
        let rook2 = rook.spec_moved(square(rook_to, y));
        self.lemma_relocate(king, king2);
        let mid = self.relocate(king, king2);
        assert(mid.piece_at(rook_from, y) == self.piece_at(rook_from, y));
        assert(mid.piece_at(rook_to, y) == self.piece_at(rook_to, y));
        assert(mid.cell_ok(rook_from, y));
        assert(king.color != rook.color || king.index != rook.index) by {
            self.lemma_in_play(king);
            self.lemma_in_play(rook);
        }
        mid.lemma_relocate(rook, rook2);
        let moved = mid.relocate(rook, rook2);
        let after = self.castle(king_from, king_to, rook_from, rook_to, king_side, by);
        moved.lemma_same_pieces(after);
        assert(after.piece_at(king_to, y) == Some(king2));
        assert(after.piece_at(rook_to, y) == Some(rook2));
        // Taking it back: the king first, then the rook.
        assert(moved.cell_ok(king_to, y));
        moved.lemma_relocate(king2, king2.spec_moved(square(king_from, y)));
        let back1 = moved.relocate(king2, king);
        assert(back1.piece_at(rook_to, y) == moved.piece_at(rook_to, y));
        assert(back1.cell_ok(rook_to, y));
        back1.lemma_relocate(rook2, rook);
        let back2 = back1.relocate(rook2, rook);
        let undone = after.castle(king_to, king_from, rook_to, rook_from, king_side, -by);
        assert(undone.cells =~= self.cells);
        assert(undone.white =~= self.white);
        assert(undone.black =~= self.black);
    }

    /// A move that can be made leaves cells and lists in agreement, can be
    /// unmade, and unmaking it restores the board exactly.
    #[verifier::rlimit(50)]
    pub proof fn lemma_make(self, m: Move)
        requires
            self.consistent(),
            self.counted(),
            self.can_make(m),
        ensures
            self.make(m).consistent(),
            self.make(m).counted(),
            self.make(m).can_unmake(m),
            self.make(m).unmake(m) == self,
            self.make(m).history == self.history,
    {
        match m.action {
            Action::NoAction => {},
            Action::Move { from, to } => {
                self.lemma_relocate(from, to);
                let moved = self.relocate(from, to);
                moved.lemma_same_pieces(self.make(m));
                assert(self.make(m).relocate(to, from).same_pieces(self));
                assert(from.spec_moved(from.position) == from);
            },
            Action::Capture { piece, target } => {
                self.lemma_in_play(target);
                self.lemma_in_play(piece);
                self.lemma_remove(target);
                let taken = self.remove(target);
                let there = piece.spec_moved(target.position);
                taken.lemma_relocate(piece, there);
                let moved = taken.relocate(piece, there);
                moved.lemma_same_pieces(self.make(m));
                assert(there.spec_moved(piece.position) == piece);
                assert(self.make(m).relocate(there, piece).same_pieces(taken));
            },
            Action::Promote { old_piece, new_piece } => {
                self.lemma_relocate(old_piece, new_piece);
            },
            Action::CaptureAndPromote { old_piece, target, new_piece } => {
                self.lemma_in_play(target);
                self.lemma_in_play(old_piece);
                self.lemma_remove(target);
                let taken = self.remove(target);
                taken.lemma_relocate(old_piece, new_piece);
            },
            Action::CastleKingSide => {
                self.lemma_castle(4, 6, 7, 5, true, 1);
            },
            Action::CastleQueenSide => {
                self.lemma_castle(4, 2, 0, 3, false, 1);
            },
        }
    }

    /// Unmaking a move that can be unmade leaves cells and lists in
    /// agreement.
    pub proof fn lemma_unmake(self, m: Move)
        requires
            self.consistent(),
            self.can_unmake(m),
        ensures
            self.unmake(m).consistent(),
            self.unmake(m).history == self.history,
    {
        match m.action {
            Action::NoAction => {},
            Action::Move { from, to } => {
                assert(to.spec_moved(from.position) == from);
                self.lemma_relocate(to, from);
                self.relocate(to, from).lemma_same_pieces(self.unmake(m));
            },
            Action::Capture { piece, target } => {
                let there = piece.spec_moved(target.position);
                self.lemma_relocate(there, piece);
                let moved = self.relocate(there, piece);
                self.lemma_in_play(there);
                moved.lemma_restore(target);
                moved.restore(target).lemma_same_pieces(self.unmake(m));
            },
            Action::Promote { old_piece, new_piece } => {
                self.lemma_relocate(new_piece, old_piece);
            },
            Action::CaptureAndPromote { old_piece, target, new_piece } => {
                self.lemma_relocate(new_piece, old_piece);
                self.lemma_in_play(new_piece);
                self.relocate(new_piece, old_piece).lemma_restore(target);
            },
            Action::CastleKingSide => {
                self.lemma_castle(6, 4, 5, 7, true, -1);
            },
            Action::CastleQueenSide => {
                self.lemma_castle(2, 4, 3, 0, false, -1);
            },
        }
    }

    /// A move that can be made on a well-formed board leaves a well-formed
    /// board when it is played, and taking it back restores the board
    /// exactly.
    pub proof fn lemma_push(self, m: Move)
        requires
            self.wf(),
            self.can_make(m),
        ensures
            self.push(m).wf(),
            self.push(m).sound(),
            self.push(m).pop() == self,
            (Layout { history: self.history, ..self.push(m) }).can_unmake(m),
            (Layout { history: self.history, ..self.push(m) }).consistent(),
    {
        self.lemma_make(m);
        let made = self.make(m);
        let pushed = self.push(m);
        made.lemma_same_pieces(pushed);
        assert(pushed.history.drop_last() =~= self.history);
        assert((Layout { history: pushed.history.drop_last(), ..pushed }) == made);
    }
}

} // verus!
