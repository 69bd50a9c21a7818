//! What holds of every move generated on the board that keeps its pieces by
//! value: unless it is a castling move, it can be made, and unmaking it
//! restores the board.

use crate::board::Move;
use crate::layout::{ahead, back_rank, inside, jump_dx, jump_dy, Layout};
use crate::candidates::{walk_dx, walk_dy};
use crate::piece::{Color, Piece, Type};
use vstd::prelude::*;

verus! {

impl Layout {
    /// A move is ready when it can be made on the board, or is a castling
    /// move: whether king and rook stand ready for castling is looked at
    /// only in part when the move is generated.
    pub open spec fn ready(self, m: Move) -> bool {
        m.action is CastleKingSide || m.action is CastleQueenSide || self.can_make(m)
    }

    /// Every move of the sequence is ready.
    pub open spec fn all_ready(self, moves: Seq<Move>) -> bool {
        forall|i: int| 0 <= i < moves.len() ==> self.ready(#[trigger] moves[i])
    }

    /// The piece is in play on a sound board whose history has room for one
    /// more move.
    pub open spec fn mover(self, piece: Piece) -> bool {
        &&& self.sound()
        &&& self.in_play(piece)
        &&& self.history.len() < i32::MAX
    }

    /// Two sequences of ready moves make one.
    pub proof fn lemma_all_ready_concat(self, a: Seq<Move>, b: Seq<Move>)
        requires
            self.all_ready(a),
            self.all_ready(b),
        ensures
            self.all_ready(a + b),
    {
        assert forall|i: int| 0 <= i < (a + b).len() implies self.ready(#[trigger] (a + b)[i]) by {
            if i < a.len() {
                assert((a + b)[i] == a[i]);
            } else {
                assert((a + b)[i] == b[i - a.len()]);
            }
        }
    }

    /// The move of a piece onto one square is ready.
    pub proof fn lemma_step_ready(self, piece: Piece, x: int, y: int, only_captures: bool)
        requires
            self.mover(piece),
        ensures
            self.all_ready(self.step(piece, x, y, only_captures)),
    {
        if inside(x, y) {
            assert(self.cell_ok(x, y));
        }
    }

    /// The moves of a knight over its first `n` jumps are ready.
    pub proof fn lemma_jumps_ready(self, piece: Piece, n: int, only_captures: bool)
        requires
            self.mover(piece),
        ensures
            self.all_ready(self.jumps(piece, n, only_captures)),
        decreases n,
    {
        if n > 0 {
            self.lemma_jumps_ready(piece, n - 1, only_captures);
            let x = piece.position.x + jump_dx(n - 1);
            let y = piece.position.y + jump_dy(n - 1);
            self.lemma_step_ready(piece, x, y, only_captures);
            self.lemma_all_ready_concat(
                self.jumps(piece, n - 1, only_captures),
                self.step(piece, x, y, only_captures),
            );
        }
    }

    /// The moves of a king over its first `n` steps are ready.
    pub proof fn lemma_walk_ready(self, piece: Piece, n: int, only_captures: bool)
        requires
            self.mover(piece),
        ensures
            self.all_ready(self.walk(piece, n, only_captures)),
        decreases n,
    {
        if n > 0 {
            self.lemma_walk_ready(piece, n - 1, only_captures);
            let x = piece.position.x + walk_dx(n - 1);
            let y = piece.position.y + walk_dy(n - 1);
            self.lemma_step_ready(piece, x, y, only_captures);
            self.lemma_all_ready_concat(
                self.walk(piece, n - 1, only_captures),
                self.step(piece, x, y, only_captures),
            );
        }
    }

    /// The moves along a ray are ready.
    pub proof fn lemma_slide_ready(
        self,
        piece: Piece,
        x: int,
        y: int,
        dx: int,
        dy: int,
        k: int,
        only_captures: bool,
    )
        requires
            self.mover(piece),
        ensures
            self.all_ready(self.slide(piece, x, y, dx, dy, k, only_captures)),
        decreases 8 - k,
    {
        if k < 8 && inside(x, y) {
            assert(self.cell_ok(x, y));
            if self.piece_at(x, y) is None {
                self.lemma_slide_ready(piece, x + dx, y + dy, dx, dy, k + 1, only_captures);
                let first = if !only_captures {
                    seq![Move::spec_move_piece(piece, crate::layout::square(x, y))]
                } else {
                    Seq::empty()
                };
                assert(self.all_ready(first));
                self.lemma_all_ready_concat(
                    first,
                    self.slide(piece, x + dx, y + dy, dx, dy, k + 1, only_captures),
                );
            }
        }
    }

    /// The moves of a rook are ready.
    pub proof fn lemma_rook_ready(self, piece: Piece, only_captures: bool)
        requires
            self.mover(piece),
        ensures
            self.all_ready(self.rook_moves(piece, only_captures)),
    {
        let x = piece.position.x as int;
        let y = piece.position.y as int;
        self.lemma_slide_ready(piece, x + 1, y, 1, 0, 1, only_captures);
        self.lemma_slide_ready(piece, x - 1, y, -1, 0, 1, only_captures);
        self.lemma_slide_ready(piece, x, y + 1, 0, 1, 1, only_captures);
        self.lemma_slide_ready(piece, x, y - 1, 0, -1, 1, only_captures);
        let r1 = self.ray(piece, 1, 0, only_captures);
        let r2 = self.ray(piece, -1, 0, only_captures);
        let r3 = self.ray(piece, 0, 1, only_captures);
        let r4 = self.ray(piece, 0, -1, only_captures);
        self.lemma_all_ready_concat(r1, r2);
        self.lemma_all_ready_concat(r1 + r2, r3);
        self.lemma_all_ready_concat(r1 + r2 + r3, r4);
    }

    /// The moves of a bishop are ready.
    pub proof fn lemma_bishop_ready(self, piece: Piece, only_captures: bool)
        requires
            self.mover(piece),
        ensures
            self.all_ready(self.bishop_moves(piece, only_captures)),
    {
        let x = piece.position.x as int;
        let y = piece.position.y as int;
        self.lemma_slide_ready(piece, x + 1, y + 1, 1, 1, 1, only_captures);
        self.lemma_slide_ready(piece, x - 1, y + 1, -1, 1, 1, only_captures);
        self.lemma_slide_ready(piece, x - 1, y - 1, -1, -1, 1, only_captures);
        self.lemma_slide_ready(piece, x + 1, y - 1, 1, -1, 1, only_captures);
        let r1 = self.ray(piece, 1, 1, only_captures);
        let r2 = self.ray(piece, -1, 1, only_captures);
        let r3 = self.ray(piece, -1, -1, only_captures);
        let r4 = self.ray(piece, 1, -1, only_captures);
        self.lemma_all_ready_concat(r1, r2);
        self.lemma_all_ready_concat(r1 + r2, r3);
        self.lemma_all_ready_concat(r1 + r2 + r3, r4);
    }

    /// The moves of a pawn are ready.
    pub proof fn lemma_pawn_ready(self, piece: Piece, only_captures: bool, include_control: bool)
        requires
            self.mover(piece),
            piece.t == Type::Pawn,
        ensures
            self.all_ready(self.pawn_moves(piece, only_captures, include_control)),
    {
        let x = piece.position.x as int;
        let y = piece.position.y as int;
        let dir = ahead(piece.color);
        self.lemma_in_play(piece);
        if inside(x - 1, y + dir) {
            assert(self.cell_ok(x - 1, y + dir));
        }
        if inside(x + 1, y + dir) {
            assert(self.cell_ok(x + 1, y + dir));
        }
        if inside(x, y + dir) {
            assert(self.cell_ok(x, y + dir));
        }
        if inside(x, y + 2 * dir) {
            assert(self.cell_ok(x, y + 2 * dir));
        }
        let left = self.pawn_diagonal(piece, x - 1, y + dir, include_control);
        let right = self.pawn_diagonal(piece, x + 1, y + dir, include_control);
        let straight = self.pawn_ahead(piece, only_captures, include_control);
        assert(self.all_ready(left));
        assert(self.all_ready(right));
        assert(self.all_ready(straight)) by {
            assert forall|i: int| 0 <= i < straight.len() implies self.ready(
                #[trigger] straight[i],
            ) by {}
        }
        self.lemma_all_ready_concat(left, right);
        self.lemma_all_ready_concat(left + right, straight);
    }

    /// The moves of a piece in play are ready.
    pub proof fn lemma_piece_ready(self, piece: Piece, only_captures: bool, include_control: bool)
        requires
            self.mover(piece),
        ensures
            self.all_ready(self.piece_moves(piece, only_captures, include_control)),
    {
        match piece.t {
            Type::Pawn => self.lemma_pawn_ready(piece, only_captures, include_control),
            Type::Rook => self.lemma_rook_ready(piece, only_captures),
            Type::Bishop => self.lemma_bishop_ready(piece, only_captures),
            Type::King => {
                self.lemma_walk_ready(piece, 8, only_captures);
                let castles = self.castlings(piece);
                assert(self.all_ready(castles)) by {
                    assert forall|i: int| 0 <= i < castles.len() implies self.ready(
                        #[trigger] castles[i],
                    ) by {}
                }
                self.lemma_all_ready_concat(self.walk(piece, 8, only_captures), castles);
            },
            Type::Queen => {
                self.lemma_rook_ready(piece, only_captures);
                self.lemma_bishop_ready(piece, only_captures);
                self.lemma_all_ready_concat(
                    self.rook_moves(piece, only_captures),
                    self.bishop_moves(piece, only_captures),
                );
            },
            Type::Knight => self.lemma_jumps_ready(piece, 8, only_captures),
        }
    }

    /// The moves of the pieces in the first `n` slots of a side are ready.
    pub proof fn lemma_moves_upto_ready(
        self,
        color: Color,
        n: int,
        only_captures: bool,
        include_control: bool,
    )
        requires
            self.sound(),
            self.history.len() < i32::MAX,
            n <= 16,
        ensures
            self.all_ready(self.moves_upto(color, n, only_captures, include_control)),
        decreases n,
    {
        if n > 0 {
            self.lemma_moves_upto_ready(color, n - 1, only_captures, include_control);
            let before = self.moves_upto(color, n - 1, only_captures, include_control);
            match self.list(color)[n - 1] {
                Some(piece) => {
                    assert(self.slot_ok(color, n - 1));
                    self.lemma_piece_ready(piece, only_captures, include_control);
                    self.lemma_all_ready_concat(
                        before,
                        self.piece_moves(piece, only_captures, include_control),
                    );
                },
                None => {
                    assert(before + Seq::<Move>::empty() =~= before);
                },
            }
        }
    }

    /// Every generated move that is not a castling move can be made on the
    /// board, and taking it back restores the board exactly; so does every
    /// castling move for which king and rook stand ready.
    pub proof fn lemma_generated_round_trip(
        self,
        color: Color,
        only_captures: bool,
        include_control: bool,
        i: int,
    )
        requires
            self.wf(),
            self.history.len() < i32::MAX,
            0 <= i < self.all_moves(color, only_captures, include_control).len(),
        ensures
            self.ready(self.all_moves(color, only_captures, include_control)[i]),
            self.can_make(self.all_moves(color, only_captures, include_control)[i]) ==> {
                &&& self.push(self.all_moves(color, only_captures, include_control)[i]).wf()
                &&& self.push(self.all_moves(color, only_captures, include_control)[i]).pop()
                    == self
            },
    {
        self.lemma_moves_upto_ready(color, self.used(color), only_captures, include_control);
        let m = self.all_moves(color, only_captures, include_control)[i];
        if self.can_make(m) {
            self.lemma_push(m);
        }
    }
}

} // verus!
