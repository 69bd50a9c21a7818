//! Which moves each piece has: the pseudo-legal moves of a position, in the
//! order in which they are generated.

use crate::board2::{Move, MoveFlags};
use crate::model::{forward, home_row, BoardView};
use crate::piece2::{on_board, Color, Piece, PieceRef, Position, Type};
use vstd::prelude::*;

verus! {

/// `after` is `before` with `moves` written from index `at` on, and nothing
/// else changed.
pub open spec fn written(before: Seq<Move>, after: Seq<Move>, at: int, moves: Seq<Move>) -> bool {
    &&& after.len() == before.len()
    &&& 0 <= at
    &&& at + moves.len() <= before.len()
    &&& forall|i: int| 0 <= i < at ==> #[trigger] after[i] == before[i]
    &&& forall|i: int| 0 <= i < moves.len() ==> after[at + i] == #[trigger] moves[i]
    &&& forall|i: int| at <= i < at + moves.len() ==> #[trigger] after[i] == moves[i - at]
    &&& forall|i: int| at + moves.len() <= i < before.len() ==> #[trigger] after[i] == before[i]
}

/// Writing `first` and then `second` behind it is writing `first + second`.
pub proof fn lemma_written_twice(
    a: Seq<Move>,
    b: Seq<Move>,
    c: Seq<Move>,
    at: int,
    first: Seq<Move>,
    second: Seq<Move>,
)
    requires
        written(a, b, at, first),
        written(b, c, at + first.len(), second),
    ensures
        written(a, c, at, first + second),
{
    let both = first + second;
    assert forall|i: int| 0 <= i < both.len() implies c[at + i] == #[trigger] both[i] by {
        if i < first.len() {
            assert(b[at + i] == first[i]);
            assert(c[at + i] == b[at + i]);
        } else {
            let j = i - first.len();
            assert(c[at + first.len() + j] == second[j]);
        }
    }
    assert forall|i: int| 0 <= i < at implies #[trigger] c[i] == a[i] by {
        assert(c[i] == b[i]);
    }
    assert forall|i: int| at <= i < at + both.len() implies #[trigger] c[i] == both[i - at] by {
        assert(c[at + (i - at)] == both[i - at]);
    }
    assert forall|i: int| at + both.len() <= i < a.len() implies #[trigger] c[i] == a[i] by {
        assert(c[i] == b[i]);
    }
}

/// Horizontal offset of the `i`-th knight jump.
pub open spec fn knight_dx(i: int) -> int {
    if i == 0 {
        -1
    } else if i == 1 {
        -2
    } else if i == 2 {
        -2
    } else if i == 3 {
        -1
    } else if i == 4 {
        1
    } else if i == 5 {
        2
    } else if i == 6 {
        2
    } else {
        1
    }
}

/// Vertical offset of the `i`-th knight jump.
pub open spec fn knight_dy(i: int) -> int {
    if i == 0 {
        2
    } else if i == 1 {
        1
    } else if i == 2 {
        -1
    } else if i == 3 {
        -2
    } else if i == 4 {
        -2
    } else if i == 5 {
        -1
    } else if i == 6 {
        1
    } else {
        2
    }
}

/// Horizontal offset of the `i`-th king step.
pub open spec fn king_dx(i: int) -> int {
    if i == 0 {
        0
    } else if i == 1 {
        -1
    } else if i == 2 {
        -1
    } else if i == 3 {
        -1
    } else if i == 4 {
        0
    } else if i == 5 {
        1
    } else if i == 6 {
        1
    } else {
        1
    }
}

/// Vertical offset of the `i`-th king step.
pub open spec fn king_dy(i: int) -> int {
    if i == 0 {
        1
    } else if i == 1 {
        1
    } else if i == 2 {
        0
    } else if i == 3 {
        -1
    } else if i == 4 {
        -1
    } else if i == 5 {
        -1
    } else if i == 6 {
        0
    } else {
        1
    }
}

/// How many squares lie between a coordinate and the edge of the board that a
/// step of `d` leads to, the square of the coordinate counted in.
pub open spec fn files_left(c: int, d: int) -> int {
    if c < 0 || c > 7 {
        0
    } else if d > 0 {
        8 - c
    } else {
        c + 1
    }
}

/// The flag a rook move sets: that of the rook's side of the board, if the
/// rook stands on the a-file or the h-file and the flag is not yet set.
pub open spec fn rook_flags(board_flags: MoveFlags, x: int) -> MoveFlags {
    if !board_flags.queen_rook && x == 0 {
        MoveFlags { queen_rook: true, ..MoveFlags::spec_empty() }
    } else if !board_flags.king_rook && x == 7 {
        MoveFlags { king_rook: true, ..MoveFlags::spec_empty() }
    } else {
        MoveFlags::spec_empty()
    }
}

/// The flag a king move sets: that of the king, if it is not yet set.
pub open spec fn king_flags(board_flags: MoveFlags) -> MoveFlags {
    if !board_flags.king {
        MoveFlags { king: true, ..MoveFlags::spec_empty() }
    } else {
        MoveFlags::spec_empty()
    }
}

impl BoardView {
    /// The move of a piece onto one square: a shift if the square is empty,
    /// a capture if a piece of the other color stands there, and no move if
    /// the square is off the board or holds a piece of the mover's color.
    pub open spec fn step_moves(
        self,
        r: PieceRef,
        p: Piece,
        x: int,
        y: int,
        flags: MoveFlags,
    ) -> Seq<Move> {
        if !on_board(x, y) {
            Seq::empty()
        } else if !self.occupied(x, y) {
            seq![Move::spec_new_move(r, p@.position, Position::at(x, y), flags)]
        } else if self.ref_at(x, y)@.color != p@.color {
            seq![Move::spec_new_capture(r, self.ref_at(x, y), flags)]
        } else {
            Seq::empty()
        }
    }

    /// The moves of a knight over its first `n` jumps.
    pub open spec fn knight_steps(self, r: PieceRef, p: Piece, n: int) -> Seq<Move>
        decreases n,
    {
        if n <= 0 {
            Seq::empty()
        } else {
            self.knight_steps(r, p, n - 1) + self.step_moves(
                r,
                p,
                p@.position.col() + knight_dx(n - 1),
                p@.position.row() + knight_dy(n - 1),
                MoveFlags::spec_empty(),
            )
        }
    }

    /// The moves of a king over its first `n` steps.
    pub open spec fn king_steps(self, r: PieceRef, p: Piece, flags: MoveFlags, n: int) -> Seq<
        Move,
    >
        decreases n,
    {
        if n <= 0 {
            Seq::empty()
        } else {
            self.king_steps(r, p, flags, n - 1) + self.step_moves(
                r,
                p,
                p@.position.col() + king_dx(n - 1),
                p@.position.row() + king_dy(n - 1),
                flags,
            )
        }
    }

    /// The moves along a ray, from its `k`-th square `(x, y)` on: a shift
    /// onto each empty square, and at the first occupied square a capture if
    /// the piece there is of the other color. The ray ends there, or at the
    /// edge of the board.
    pub open spec fn ray_moves(
        self,
        r: PieceRef,
        p: Piece,
        x: int,
        y: int,
        dx: int,
        dy: int,
        k: int,
        flags: MoveFlags,
    ) -> Seq<Move>
        decreases 8 - k,
    {
        if k >= 8 || !on_board(x, y) {
            Seq::empty()
        } else if self.occupied(x, y) {
            if self.ref_at(x, y)@.color != p@.color {
                seq![Move::spec_new_capture(r, self.ref_at(x, y), flags)]
            } else {
                Seq::empty()
            }
        } else {
            seq![Move::spec_new_move(r, p@.position, Position::at(x, y), flags)] + self.ray_moves(
                r,
                p,
                x + dx,
                y + dy,
                dx,
                dy,
                k + 1,
                flags,
            )
        }
    }

    /// The whole ray of a piece in direction `(dx, dy)`.
    pub open spec fn ray(self, r: PieceRef, p: Piece, dx: int, dy: int, flags: MoveFlags) -> Seq<
        Move,
    > {
        self.ray_moves(r, p, p@.position.col() + dx, p@.position.row() + dy, dx, dy, 1, flags)
    }

    /// A pawn's capture onto `(x, y)`: only if a piece of the other color
    /// stands there. On the farthest rank the pawn is promoted to a queen.
    pub open spec fn pawn_capture(self, r: PieceRef, enemy: Color, x: int, y: int, promote: bool)
        -> Seq<Move> {
        if on_board(x, y) && self.occupied(x, y) && self.ref_at(x, y)@.color == enemy {
            if promote {
                seq![Move::spec_new_capture_and_promote(r, self.ref_at(x, y), Type::Queen)]
            } else {
                seq![Move::spec_new_capture(r, self.ref_at(x, y), MoveFlags::spec_empty())]
            }
        } else {
            Seq::empty()
        }
    }

    /// A pawn's moves straight ahead: one square if it is empty, and from the
    /// pawn's starting rank a second one if that is empty too. A step onto
    /// the farthest rank is a promotion to a queen.
    pub open spec fn pawn_pushes(self, r: PieceRef, p: Piece) -> Seq<Move> {
        let color = p@.color;
        let x = p@.position.col();
        let y = p@.position.row();
        let ahead = y + forward(color);
        if self.occupied(x, ahead) {
            Seq::empty()
        } else if ahead == home_row(color.spec_other()) {
            seq![Move::spec_new_promote(r, Type::Queen, Position::at(x, ahead))]
        } else if y == home_row(color) + forward(color) && !self.occupied(
            x,
            ahead + forward(color),
        ) {
            seq![
                Move::spec_new_move(r, p@.position, Position::at(x, ahead), MoveFlags::spec_empty()),
                Move::spec_new_move(
                    r,
                    p@.position,
                    Position::at(x, ahead + forward(color)),
                    MoveFlags::spec_empty(),
                ),
            ]
        } else {
            seq![
                Move::spec_new_move(r, p@.position, Position::at(x, ahead), MoveFlags::spec_empty()),
            ]
        }
    }

    /// The moves of a pawn: its pushes, then its capture towards the a-file,
    /// then its capture towards the h-file. A pawn on the farthest rank has
    /// none.
    pub open spec fn pawn_moves(self, r: PieceRef, p: Piece) -> Seq<Move> {
        let color = p@.color;
        let x = p@.position.col();
        let ahead = p@.position.row() + forward(color);
        if !(0 <= ahead < 8) {
            Seq::empty()
        } else {
            let promote = ahead == home_row(color.spec_other());
            self.pawn_pushes(r, p) + self.pawn_capture(
                r,
                color.spec_other(),
                x - 1,
                ahead,
                promote,
            ) + self.pawn_capture(r, color.spec_other(), x + 1, ahead, promote)
        }
    }

    /// The moves of a knight.
    pub open spec fn knight_moves(self, r: PieceRef, p: Piece) -> Seq<Move> {
        self.knight_steps(r, p, 8)
    }

    /// The castling moves of a king whose side has the rights `board_flags`
    /// used up: none once the king has moved; else one to the queen's side
    /// if that rook has not moved and the three squares between are empty,
    /// and one to the king's side if that rook has not moved and the two
    /// squares between are empty.
    pub open spec fn castle_moves(self, r: PieceRef, p: Piece, board_flags: MoveFlags) -> Seq<
        Move,
    > {
        let y = p@.position.row();
        if board_flags.king {
            Seq::empty()
        } else {
            (if !board_flags.queen_rook && !self.occupied(1, y) && !self.occupied(2, y)
                && !self.occupied(3, y) {
                seq![
                    Move::spec_new_castle(
                        r,
                        MoveFlags { king: true, queen_rook: true, king_rook: false },
                    ),
                ]
            } else {
                Seq::empty()
            }) + (if !board_flags.king_rook && !self.occupied(5, y) && !self.occupied(6, y) {
                seq![
                    Move::spec_new_castle(
                        r,
                        MoveFlags { king: true, king_rook: true, queen_rook: false },
                    ),
                ]
            } else {
                Seq::empty()
            })
        }
    }

    /// The moves of a king: its eight steps, then its castling moves.
    pub open spec fn king_moves(self, r: PieceRef, p: Piece, board_flags: MoveFlags) -> Seq<Move> {
        self.king_steps(r, p, king_flags(board_flags), 8) + self.castle_moves(r, p, board_flags)
    }

    /// The moves of a rook: its rays towards the a-file, towards the h-file,
    /// up the board and down the board.
    pub open spec fn rook_moves(self, r: PieceRef, p: Piece, board_flags: MoveFlags) -> Seq<Move> {
        let flags = rook_flags(board_flags, p@.position.col());
        self.ray(r, p, -1, 0, flags) + self.ray(r, p, 1, 0, flags) + self.ray(r, p, 0, 1, flags)
            + self.ray(r, p, 0, -1, flags)
    }

    /// The moves of a bishop: its four diagonal rays.
    pub open spec fn bishop_moves(self, r: PieceRef, p: Piece) -> Seq<Move> {
        let flags = MoveFlags::spec_empty();
        self.ray(r, p, 1, 1, flags) + self.ray(r, p, -1, 1, flags) + self.ray(r, p, -1, -1, flags)
            + self.ray(r, p, 1, -1, flags)
    }

    /// The moves of a queen: those of a rook, which set no flag, then those
    /// of a bishop.
    pub open spec fn queen_moves(self, r: PieceRef, p: Piece) -> Seq<Move> {
        self.rook_moves(r, p, MoveFlags::spec_full()) + self.bishop_moves(r, p)
    }

    /// The moves of one piece.
    pub open spec fn piece_moves(self, r: PieceRef, p: Piece) -> Seq<Move> {
        let board_flags = self.flags(p@.color);
        match p@.kind {
            Type::Pawn => self.pawn_moves(r, p),
            Type::Rook => self.rook_moves(r, p, board_flags),
            Type::Bishop => self.bishop_moves(r, p),
            Type::Queen => self.queen_moves(r, p),
            Type::King => self.king_moves(r, p, board_flags),
            Type::Knight => self.knight_moves(r, p),
        }
    }

    /// The moves of the pieces in play in the first `n` slots of a side.
    pub open spec fn moves_of_slots(self, color: Color, n: int) -> Seq<Move>
        decreases n,
    {
        if n <= 0 {
            Seq::empty()
        } else {
            let p = self.pieces[n - 1 + 16 * color.bit()];
            self.moves_of_slots(color, n - 1) + (if p@.active {
                self.piece_moves(PieceRef::spec_new(color, n - 1), p)
            } else {
                Seq::empty()
            })
        }
    }

    /// All pseudo-legal moves of a side, slot by slot.
    pub open spec fn all_moves(self, color: Color) -> Seq<Move> {
        self.moves_of_slots(color, 16)
    }
}

/// Writing `second` into the part of a buffer that lies behind `first` is
/// writing `first + second` into the whole buffer.
pub proof fn lemma_written_behind(
    a: Seq<Move>,
    b: Seq<Move>,
    c: Seq<Move>,
    tail: Seq<Move>,
    first: Seq<Move>,
    second: Seq<Move>,
)
    requires
        written(a, b, 0, first),
        written(b.subrange(first.len() as int, b.len() as int), tail, 0, second),
        c == b.subrange(0, first.len() as int) + tail,
    ensures
        written(a, c, 0, first + second),
{
    let n = first.len() as int;
    let both = first + second;
    let old_tail = b.subrange(n, b.len() as int);
    assert forall|i: int| 0 <= i < both.len() implies c[i] == #[trigger] both[i] by {
        if i < n {
            assert(b[0 + i] == first[i]);
        } else {
            assert(tail[0 + (i - n)] == second[i - n]);
        }
    }
    assert forall|i: int| 0 <= i < both.len() implies #[trigger] c[i] == both[i - 0] by {
        assert(c[i] == both[i]);
    }
    assert forall|i: int| both.len() <= i < a.len() implies #[trigger] c[i] == a[i] by {
        assert(tail[i - n] == old_tail[i - n]);
        assert(b[i] == a[i]);
    }
}

impl BoardView {
    /// The moves over more knight jumps extend those over fewer.
    pub proof fn lemma_knight_steps_grow(self, r: PieceRef, p: Piece, n: int)
        ensures
            forall|i: int|
                0 <= i < n ==> (#[trigger] self.knight_steps(r, p, i)).len() <= self.knight_steps(
                    r,
                    p,
                    i + 1,
                ).len() <= self.knight_steps(r, p, n).len(),
        decreases n,
    {
        if n > 0 {
            self.lemma_knight_steps_grow(r, p, n - 1);
        }
    }

    /// The moves over more king steps extend those over fewer.
    pub proof fn lemma_king_steps_grow(self, r: PieceRef, p: Piece, flags: MoveFlags, n: int)
        ensures
            forall|i: int|
                0 <= i < n ==> (#[trigger] self.king_steps(r, p, flags, i)).len()
                    <= self.king_steps(r, p, flags, i + 1).len() <= self.king_steps(
                    r,
                    p,
                    flags,
                    n,
                ).len(),
        decreases n,
    {
        if n > 0 {
            self.lemma_king_steps_grow(r, p, flags, n - 1);
        }
    }

    /// A ray that runs along the files has no more moves than there are files
    /// from its square on to the edge of the board.
    pub proof fn lemma_ray_bound(
        self,
        r: PieceRef,
        p: Piece,
        x: int,
        y: int,
        dx: int,
        dy: int,
        k: int,
        flags: MoveFlags,
    )
        requires
            dx == 1 || dx == -1,
        ensures
            self.ray_moves(r, p, x, y, dx, dy, k, flags).len() <= files_left(x, dx),
        decreases 8 - k,
    {
        if k < 8 && on_board(x, y) && !self.occupied(x, y) {
            self.lemma_ray_bound(r, p, x + dx, y + dy, dx, dy, k + 1, flags);
        }
    }

    /// A ray that runs along one file has no more moves than there are ranks
    /// from its square on to the edge of the board.
    pub proof fn lemma_file_ray_bound(
        self,
        r: PieceRef,
        p: Piece,
        x: int,
        y: int,
        dy: int,
        k: int,
        flags: MoveFlags,
    )
        requires
            dy == 1 || dy == -1,
        ensures
            self.ray_moves(r, p, x, y, 0, dy, k, flags).len() <= files_left(y, dy),
        decreases 8 - k,
    {
        if k < 8 && on_board(x, y) && !self.occupied(x, y) {
            self.lemma_file_ray_bound(r, p, x, y + dy, dy, k + 1, flags);
        }
    }

    /// The first `n` jumps of a knight give at most `n` moves.
    pub proof fn lemma_knight_steps_bound(self, r: PieceRef, p: Piece, n: int)
        requires
            0 <= n,
        ensures
            self.knight_steps(r, p, n).len() <= n,
        decreases n,
    {
        if n > 0 {
            self.lemma_knight_steps_bound(r, p, n - 1);
        }
    }

    /// The first `n` steps of a king give at most `n` moves.
    pub proof fn lemma_king_steps_bound(self, r: PieceRef, p: Piece, flags: MoveFlags, n: int)
        requires
            0 <= n,
        ensures
            self.king_steps(r, p, flags, n).len() <= n,
        decreases n,
    {
        if n > 0 {
            self.lemma_king_steps_bound(r, p, flags, n - 1);
        }
    }

    /// A rook has at most fourteen moves: seven along its rank and seven
    /// along its file.
    pub proof fn lemma_rook_moves_bound(self, r: PieceRef, p: Piece, board_flags: MoveFlags)
        ensures
            self.rook_moves(r, p, board_flags).len() <= 14,
    {
        let x = p@.position.col();
        let y = p@.position.row();
        let f = rook_flags(board_flags, x);
        self.lemma_ray_bound(r, p, x - 1, y, -1, 0, 1, f);
        self.lemma_ray_bound(r, p, x + 1, y, 1, 0, 1, f);
        self.lemma_file_ray_bound(r, p, x, y + 1, 1, 1, f);
        self.lemma_file_ray_bound(r, p, x, y - 1, -1, 1, f);
    }

    /// A bishop has at most fourteen moves: seven along each pair of
    /// opposite diagonals.
    pub proof fn lemma_bishop_moves_bound(self, r: PieceRef, p: Piece)
        ensures
            self.bishop_moves(r, p).len() <= 14,
    {
        let x = p@.position.col();
        let y = p@.position.row();
        let e = MoveFlags::spec_empty();
        self.lemma_ray_bound(r, p, x + 1, y + 1, 1, 1, 1, e);
        self.lemma_ray_bound(r, p, x - 1, y + 1, -1, 1, 1, e);
        self.lemma_ray_bound(r, p, x - 1, y - 1, -1, -1, 1, e);
        self.lemma_ray_bound(r, p, x + 1, y - 1, 1, -1, 1, e);
    }

    /// No piece has more than 28 moves, the moves of a queen.
    pub proof fn lemma_piece_moves_bound(self, r: PieceRef, p: Piece)
        ensures
            self.piece_moves(r, p).len() <= 28,
    {
        match p@.kind {
            Type::Pawn => {},
            Type::Rook => {
                self.lemma_rook_moves_bound(r, p, self.flags(p@.color));
            },
            Type::Bishop => {
                self.lemma_bishop_moves_bound(r, p);
            },
            Type::Queen => {
                self.lemma_rook_moves_bound(r, p, MoveFlags::spec_full());
                self.lemma_bishop_moves_bound(r, p);
            },
            Type::King => {
                self.lemma_king_steps_bound(r, p, king_flags(self.flags(p@.color)), 8);
            },
            Type::Knight => {
                self.lemma_knight_steps_bound(r, p, 8);
            },
        }
    }

    /// The first `n` slots of a side have at most `28 * n` moves.
    pub proof fn lemma_moves_of_slots_bound(self, color: Color, n: int)
        requires
            0 <= n,
        ensures
            self.moves_of_slots(color, n).len() <= 28 * n,
        decreases n,
    {
        if n > 0 {
            self.lemma_moves_of_slots_bound(color, n - 1);
            self.lemma_piece_moves_bound(
                PieceRef::spec_new(color, n - 1),
                self.pieces[n - 1 + 16 * color.bit()],
            );
        }
    }

    /// A side never has more than 448 moves, whatever the board holds.
    pub proof fn lemma_all_moves_bound(self, color: Color)
        ensures
            self.all_moves(color).len() <= 448,
    {
        self.lemma_moves_of_slots_bound(color, 16);
    }

    /// The moves of more slots extend those of fewer.
    pub proof fn lemma_moves_of_slots_grow(self, color: Color, n: int)
        ensures
            forall|i: int|
                0 <= i < n ==> (#[trigger] self.moves_of_slots(color, i)).len()
                    <= self.moves_of_slots(color, i + 1).len() <= self.moves_of_slots(
                    color,
                    n,
                ).len(),
        decreases n,
    {
        if n > 0 {
            self.lemma_moves_of_slots_grow(color, n - 1);
        }
    }
}

} // verus!
