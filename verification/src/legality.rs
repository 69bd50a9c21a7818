//! What holds of every generated move: it belongs to the side it was
//! generated for, it can be made on the board, and taking it back restores
//! the board.

use crate::board2::{Move, MoveFlags};
use crate::model::{forward, home_row, slot_ref, BoardView};
use crate::moves::{king_dx, king_dy, king_flags, knight_dx, knight_dy, rook_flags};
use crate::piece2::{on_board, Color, Piece, PieceRef, Position, Type};
use crate::reversal::lemma_slot_ref_flat;
use vstd::prelude::*;

verus! {

impl BoardView {
    /// A move is sound for a side when a piece of that side in play makes it,
    /// it carries no castling flag that the side has already used up, and it
    /// can be made on the board. Of a castling move the last is not asked:
    /// whether king and rook stand ready is not looked at when the move is
    /// generated.
    pub open spec fn sound(self, color: Color, m: Move) -> bool {
        &&& m.piece_ref@.color == color
        &&& self.in_play(m.piece_ref)
        &&& self.flags(color).disjoint(m.flags)
        &&& m.action is Castle || self.can_apply(m)
        &&& !(m.action is NoAction)
        &&& !(m.action is Evaluate)
    }

    /// Every move of the sequence is sound.
    pub open spec fn all_sound(self, color: Color, moves: Seq<Move>) -> bool {
        forall|i: int| 0 <= i < moves.len() ==> self.sound(color, #[trigger] moves[i])
    }

    /// The reference names the piece `p`, which is in play on a well-formed
    /// board and whose side has used up the rights `flags` can be added to.
    pub open spec fn mover(self, r: PieceRef, p: Piece, flags: MoveFlags) -> bool {
        &&& self.wf()
        &&& self.in_play(r)
        &&& self.piece(r) == p
        &&& self.flags(r@.color).disjoint(flags)
    }

    /// Two sequences of sound moves make one.
    pub proof fn lemma_all_sound_concat(self, color: Color, a: Seq<Move>, b: Seq<Move>)
        requires
            self.all_sound(color, a),
            self.all_sound(color, b),
        ensures
            self.all_sound(color, a + b),
    {
        assert forall|i: int| 0 <= i < (a + b).len() implies self.sound(
            color,
            #[trigger] (a + b)[i],
        ) by {
            if i < a.len() {
                assert((a + b)[i] == a[i]);
            } else {
                assert((a + b)[i] == b[i - a.len()]);
            }
        }
    }

    /// A piece standing on a square of a well-formed board is in play.
    pub proof fn lemma_occupant_in_play(self, x: int, y: int)
        requires
            self.wf(),
            on_board(x, y),
            self.occupied(x, y),
        ensures
            self.in_play(self.ref_at(x, y)),
    {
        assert(self.square_ok(x + 8 * y));
    }

    /// The move of a piece onto one square is sound.
    pub proof fn lemma_step_sound(self, r: PieceRef, p: Piece, x: int, y: int, flags: MoveFlags)
        requires
            self.mover(r, p, flags),
        ensures
            self.all_sound(r@.color, self.step_moves(r, p, x, y, flags)),
    {
        broadcast use Position::lemma_at;

        self.lemma_in_play(r);
        if on_board(x, y) && self.occupied(x, y) {
            self.lemma_occupant_in_play(x, y);
        }
    }

    /// The moves of a knight over its first `n` jumps are sound.
    pub proof fn lemma_knight_steps_sound(self, r: PieceRef, p: Piece, n: int)
        requires
            self.mover(r, p, MoveFlags::spec_empty()),
        ensures
            self.all_sound(r@.color, self.knight_steps(r, p, n)),
        decreases n,
    {
        if n > 0 {
            self.lemma_knight_steps_sound(r, p, n - 1);
            let x = p@.position.col() + knight_dx(n - 1);
            let y = p@.position.row() + knight_dy(n - 1);
            self.lemma_step_sound(r, p, x, y, MoveFlags::spec_empty());
            self.lemma_all_sound_concat(
                r@.color,
                self.knight_steps(r, p, n - 1),
                self.step_moves(r, p, x, y, MoveFlags::spec_empty()),
            );
        }
    }

    /// The moves of a king over its first `n` steps are sound.
    pub proof fn lemma_king_steps_sound(self, r: PieceRef, p: Piece, flags: MoveFlags, n: int)
        requires
            self.mover(r, p, flags),
        ensures
            self.all_sound(r@.color, self.king_steps(r, p, flags, n)),
        decreases n,
    {
        if n > 0 {
            self.lemma_king_steps_sound(r, p, flags, n - 1);
            let x = p@.position.col() + king_dx(n - 1);
            let y = p@.position.row() + king_dy(n - 1);
            self.lemma_step_sound(r, p, x, y, flags);
            self.lemma_all_sound_concat(
                r@.color,
                self.king_steps(r, p, flags, n - 1),
                self.step_moves(r, p, x, y, flags),
            );
        }
    }

    /// The moves along a ray are sound.
    pub proof fn lemma_ray_sound(
        self,
        r: PieceRef,
        p: Piece,
        x: int,
        y: int,
        dx: int,
        dy: int,
        k: int,
        flags: MoveFlags,
    )
        requires
            self.mover(r, p, flags),
        ensures
            self.all_sound(r@.color, self.ray_moves(r, p, x, y, dx, dy, k, flags)),
        decreases 8 - k,
    {
        broadcast use Position::lemma_at;

        self.lemma_in_play(r);
        if k < 8 && on_board(x, y) {
            if self.occupied(x, y) {
                self.lemma_occupant_in_play(x, y);
            } else {
                self.lemma_ray_sound(r, p, x + dx, y + dy, dx, dy, k + 1, flags);
                let first = seq![Move::spec_new_move(r, p@.position, Position::at(x, y), flags)];
                assert(self.sound(r@.color, first[0]));
                self.lemma_all_sound_concat(
                    r@.color,
                    first,
                    self.ray_moves(r, p, x + dx, y + dy, dx, dy, k + 1, flags),
                );
            }
        }
    }

    /// The moves of a rook are sound.
    pub proof fn lemma_rook_sound(self, r: PieceRef, p: Piece, board_flags: MoveFlags)
        requires
            self.mover(r, p, rook_flags(board_flags, p@.position.col())),
        ensures
            self.all_sound(r@.color, self.rook_moves(r, p, board_flags)),
    {
        let flags = rook_flags(board_flags, p@.position.col());
        let x = p@.position.col();
        let y = p@.position.row();
        let c = r@.color;
        self.lemma_ray_sound(r, p, x - 1, y, -1, 0, 1, flags);
        self.lemma_ray_sound(r, p, x + 1, y, 1, 0, 1, flags);
        self.lemma_ray_sound(r, p, x, y + 1, 0, 1, 1, flags);
        self.lemma_ray_sound(r, p, x, y - 1, 0, -1, 1, flags);
        let r1 = self.ray(r, p, -1, 0, flags);
        let r2 = self.ray(r, p, 1, 0, flags);
        let r3 = self.ray(r, p, 0, 1, flags);
        let r4 = self.ray(r, p, 0, -1, flags);
        self.lemma_all_sound_concat(c, r1, r2);
        self.lemma_all_sound_concat(c, r1 + r2, r3);
        self.lemma_all_sound_concat(c, r1 + r2 + r3, r4);
    }

    /// The moves of a bishop are sound.
    pub proof fn lemma_bishop_sound(self, r: PieceRef, p: Piece)
        requires
            self.mover(r, p, MoveFlags::spec_empty()),
        ensures
            self.all_sound(r@.color, self.bishop_moves(r, p)),
    {
        let flags = MoveFlags::spec_empty();
        let x = p@.position.col();
        let y = p@.position.row();
        let c = r@.color;
        self.lemma_ray_sound(r, p, x + 1, y + 1, 1, 1, 1, flags);
        self.lemma_ray_sound(r, p, x - 1, y + 1, -1, 1, 1, flags);
        self.lemma_ray_sound(r, p, x - 1, y - 1, -1, -1, 1, flags);
        self.lemma_ray_sound(r, p, x + 1, y - 1, 1, -1, 1, flags);
        let r1 = self.ray(r, p, 1, 1, flags);
        let r2 = self.ray(r, p, -1, 1, flags);
        let r3 = self.ray(r, p, -1, -1, flags);
        let r4 = self.ray(r, p, 1, -1, flags);
        self.lemma_all_sound_concat(c, r1, r2);
        self.lemma_all_sound_concat(c, r1 + r2, r3);
        self.lemma_all_sound_concat(c, r1 + r2 + r3, r4);
    }

    /// A pawn's capture is sound.
    pub proof fn lemma_pawn_capture_sound(self, r: PieceRef, p: Piece, x: int, y: int, promote: bool)
        requires
            self.mover(r, p, MoveFlags::spec_empty()),
            p@.kind == Type::Pawn,
        ensures
            self.all_sound(
                r@.color,
                self.pawn_capture(r, r@.color.spec_other(), x, y, promote),
            ),
    {
        self.lemma_in_play(r);
        if on_board(x, y) && self.occupied(x, y) {
            self.lemma_occupant_in_play(x, y);
        }
    }

    /// The moves of a pawn are sound.
    #[verifier::rlimit(50)]
    pub proof fn lemma_pawn_sound(self, r: PieceRef, p: Piece)
        requires
            self.mover(r, p, MoveFlags::spec_empty()),
            p@.kind == Type::Pawn,
        ensures
            self.all_sound(r@.color, self.pawn_moves(r, p)),
    {
        broadcast use Position::lemma_at;

        self.lemma_in_play(r);
        let color = p@.color;
        let x = p@.position.col();
        let y = p@.position.row();
        let ahead = y + forward(color);
        if 0 <= ahead < 8 {
            let promote = ahead == home_row(color.spec_other());
            p@.position.lemma_at_own_coordinates();
            let pushes = self.pawn_pushes(r, p);
            assert(self.all_sound(color, pushes)) by {
                assert forall|i: int| 0 <= i < pushes.len() implies self.sound(
                    color,
                    #[trigger] pushes[i],
                ) by {}
            }
            let left = self.pawn_capture(r, color.spec_other(), x - 1, ahead, promote);
            let right = self.pawn_capture(r, color.spec_other(), x + 1, ahead, promote);
            self.lemma_pawn_capture_sound(r, p, x - 1, ahead, promote);
            self.lemma_pawn_capture_sound(r, p, x + 1, ahead, promote);
            self.lemma_all_sound_concat(color, pushes, left);
            self.lemma_all_sound_concat(color, pushes + left, right);
        }
    }

    /// The moves of a king are sound.
    pub proof fn lemma_king_sound(self, r: PieceRef, p: Piece)
        requires
            self.mover(r, p, MoveFlags::spec_empty()),
        ensures
            self.all_sound(r@.color, self.king_moves(r, p, self.flags(r@.color))),
    {
        let board_flags = self.flags(r@.color);
        self.lemma_king_steps_sound(r, p, king_flags(board_flags), 8);
        let castles = self.castle_moves(r, p, board_flags);
        assert(self.all_sound(r@.color, castles)) by {
            assert forall|i: int| 0 <= i < castles.len() implies self.sound(
                r@.color,
                #[trigger] castles[i],
            ) by {}
        }
        self.lemma_all_sound_concat(
            r@.color,
            self.king_steps(r, p, king_flags(board_flags), 8),
            castles,
        );
    }

    /// The moves of a piece in play are sound.
    pub proof fn lemma_piece_sound(self, r: PieceRef, p: Piece)
        requires
            self.mover(r, p, MoveFlags::spec_empty()),
        ensures
            self.all_sound(r@.color, self.piece_moves(r, p)),
    {
        self.lemma_in_play(r);
        let board_flags = self.flags(p@.color);
        match p@.kind {
            Type::Pawn => self.lemma_pawn_sound(r, p),
            Type::Rook => self.lemma_rook_sound(r, p, board_flags),
            Type::Bishop => self.lemma_bishop_sound(r, p),
            Type::Queen => {
                self.lemma_rook_sound(r, p, MoveFlags::spec_full());
                self.lemma_bishop_sound(r, p);
                self.lemma_all_sound_concat(
                    r@.color,
                    self.rook_moves(r, p, MoveFlags::spec_full()),
                    self.bishop_moves(r, p),
                );
            },
            Type::King => self.lemma_king_sound(r, p),
            Type::Knight => self.lemma_knight_steps_sound(r, p, 8),
        }
    }

    /// The moves of the pieces in the first `n` slots of a side are sound.
    pub proof fn lemma_slots_sound(self, color: Color, n: int)
        requires
            self.wf(),
            n <= 16,
        ensures
            self.all_sound(color, self.moves_of_slots(color, n)),
        decreases n,
    {
        if n > 0 {
            self.lemma_slots_sound(color, n - 1);
            let s = n - 1 + 16 * color.bit();
            let p = self.pieces[s];
            let r = PieceRef::spec_new(color, n - 1);
            assert(r == slot_ref(s));
            lemma_slot_ref_flat(s);
            if p@.active {
                self.lemma_piece_sound(r, p);
                self.lemma_all_sound_concat(
                    color,
                    self.moves_of_slots(color, n - 1),
                    self.piece_moves(r, p),
                );
            } else {
                assert(self.moves_of_slots(color, n) =~= self.moves_of_slots(color, n - 1));
            }
        }
    }

    /// Every generated move is made by a piece in play of the side it was
    /// generated for, carries no castling flag that the side has used up, and,
    /// unless it is a castling move, can be made on the board.
    pub proof fn lemma_generated_sound(self, color: Color, i: int)
        requires
            self.wf(),
            0 <= i < self.all_moves(color).len(),
        ensures
            self.sound(color, self.all_moves(color)[i]),
    {
        self.lemma_slots_sound(color, 16);
    }

    /// Applying any generated move and then reverting it restores the board
    /// exactly, inactive slots and castling rights included. A generated
    /// castling move is only in reach of this where king and rook stand
    /// ready for it.
    pub proof fn lemma_generated_round_trip(self, color: Color, i: int)
        requires
            self.wf(),
            0 <= i < self.all_moves(color).len(),
            self.all_moves(color)[i].action is Castle ==> self.can_castle(
                self.all_moves(color)[i].piece_ref,
                self.all_moves(color)[i].flags,
            ),
        ensures
            self.can_apply(self.all_moves(color)[i]),
            self.apply(self.all_moves(color)[i]).wf(),
            self.apply(self.all_moves(color)[i]).can_revert(self.all_moves(color)[i]),
            self.apply(self.all_moves(color)[i]).revert(self.all_moves(color)[i]) == self,
    {
        let m = self.all_moves(color)[i];
        self.lemma_generated_sound(color, i);
        self.lemma_apply_wf(m);
        self.lemma_round_trip(m);
    }
}

} // verus!
