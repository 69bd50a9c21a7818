//! Which moves the pieces have on the board that keeps its pieces by value,
//! in the order in which they are generated.

use crate::board::{Move, MoveNode};
use crate::layout::{ahead, back_rank, inside, jump_dx, jump_dy, square, Layout};
use crate::piece::{Color, Piece, Type};
use vstd::prelude::*;

verus! {

/// Whether a node is a fresh node for a move: not visited, without children.
pub open spec fn fresh(node: MoveNode, m: Move) -> bool {
    &&& node.m == m
    &&& node.children@.len() == 0
    &&& !node.visited
}

/// `after` is `before` with a fresh node for each of `moves` behind it.
pub open spec fn appended(before: Seq<MoveNode>, after: Seq<MoveNode>, moves: Seq<Move>) -> bool {
    &&& after.len() == before.len() + moves.len()
    &&& forall|i: int| 0 <= i < before.len() ==> #[trigger] after[i] == before[i]
    &&& forall|i: int| 0 <= i < moves.len() ==> fresh(after[before.len() + i], #[trigger] moves[i])
}

/// Appending `first` and then `second` is appending `first + second`.
pub proof fn lemma_appended_twice(
    a: Seq<MoveNode>,
    b: Seq<MoveNode>,
    c: Seq<MoveNode>,
    first: Seq<Move>,
    second: Seq<Move>,
)
    requires
        appended(a, b, first),
        appended(b, c, second),
    ensures
        appended(a, c, first + second),
{
    let both = first + second;
    assert forall|i: int| 0 <= i < a.len() implies #[trigger] c[i] == a[i] by {
        assert(c[i] == b[i]);
    }
    assert forall|i: int| 0 <= i < both.len() implies fresh(
        c[a.len() + i],
        #[trigger] both[i],
    ) by {
        if i < first.len() {
            assert(fresh(b[a.len() + i], first[i]));
            assert(c[a.len() + i] == b[a.len() + i]);
        } else {
            assert(fresh(c[b.len() + (i - first.len())], second[i - first.len()]));
        }
    }
}

/// Horizontal offset of the `i`-th king step.
pub open spec fn walk_dx(i: int) -> int {
    if i == 0 {
        -1
    } else if i == 1 {
        -1
    } else if i == 2 {
        0
    } else if i == 3 {
        1
    } else if i == 4 {
        1
    } else if i == 5 {
        1
    } else if i == 6 {
        0
    } else {
        -1
    }
}

/// Vertical offset of the `i`-th king step.
pub open spec fn walk_dy(i: int) -> int {
    if i == 0 {
        0
    } else if i == 1 {
        1
    } else if i == 2 {
        1
    } else if i == 3 {
        1
    } else if i == 4 {
        0
    } else if i == 5 {
        -1
    } else if i == 6 {
        -1
    } else {
        -1
    }
}

impl Layout {
    /// The move of a piece onto one square: a capture if a piece of the other
    /// color stands there, a plain move if the square is empty and not only
    /// captures are asked for, and no move otherwise.
    pub open spec fn step(self, piece: Piece, x: int, y: int, only_captures: bool) -> Seq<Move> {
        if !inside(x, y) {
            Seq::empty()
        } else {
            match self.piece_at(x, y) {
                Some(target) => if target.color != piece.color {
                    seq![Move::spec_capture_piece(piece, target)]
                } else {
                    Seq::empty()
                },
                None => if !only_captures {
                    seq![Move::spec_move_piece(piece, square(x, y))]
                } else {
                    Seq::empty()
                },
            }
        }
    }

    /// The moves of a knight over its first `n` jumps.
    pub open spec fn jumps(self, piece: Piece, n: int, only_captures: bool) -> Seq<Move>
        decreases n,
    {
        if n <= 0 {
            Seq::empty()
        } else {
            self.jumps(piece, n - 1, only_captures) + self.step(
                piece,
                piece.position.x + jump_dx(n - 1),
                piece.position.y + jump_dy(n - 1),
                only_captures,
            )
        }
    }

    /// The moves of a king over its first `n` steps.
    pub open spec fn walk(self, piece: Piece, n: int, only_captures: bool) -> Seq<Move>
        decreases n,
    {
        if n <= 0 {
            Seq::empty()
        } else {
            self.walk(piece, n - 1, only_captures) + self.step(
                piece,
                piece.position.x + walk_dx(n - 1),
                piece.position.y + walk_dy(n - 1),
                only_captures,
            )
        }
    }

    /// The castling moves of a king: none once the king has moved; else to
    /// the king's side if that rook has not moved, a piece of the king's
    /// color stands in that corner and the squares between are empty, and
    /// likewise to the queen's side.
    pub open spec fn castlings(self, piece: Piece) -> Seq<Move> {
        let color = piece.color;
        let y = back_rank(color);
        let r = self.rights(color);
        if r.king != 0 {
            Seq::empty()
        } else {
            (if r.king_rook == 0 && (self.piece_at(7, y) matches Some(rook) && rook.color
                == color) && self.piece_at(5, y).is_none() && self.piece_at(6, y).is_none() {
                seq![Move::castle_king_side()]
            } else {
                Seq::empty()
            }) + (if r.queen_rook == 0 && (self.piece_at(0, y) matches Some(rook) && rook.color
                == color) && self.piece_at(1, y).is_none() && self.piece_at(2, y).is_none()
                && self.piece_at(3, y).is_none() {
                seq![Move::castle_queen_side()]
            } else {
                Seq::empty()
            })
        }
    }

    /// The moves of a king: its eight steps, then its castling moves.
    pub open spec fn king_moves(self, piece: Piece, only_captures: bool) -> Seq<Move> {
        self.walk(piece, 8, only_captures) + self.castlings(piece)
    }

    /// The moves along a ray, from its `k`-th square `(x, y)` on: a plain
    /// move onto each empty square unless only captures are asked for, and
    /// at the first occupied square a capture if the piece there is of the
    /// other color. The ray ends there, or at the edge of the board.
    pub open spec fn slide(
        self,
        piece: Piece,
        x: int,
        y: int,
        dx: int,
        dy: int,
        k: int,
        only_captures: bool,
    ) -> Seq<Move>
        decreases 8 - k,
    {
        if k >= 8 || !inside(x, y) {
            Seq::empty()
        } else {
            match self.piece_at(x, y) {
                Some(target) => if target.color != piece.color {
                    seq![Move::spec_capture_piece(piece, target)]
                } else {
                    Seq::empty()
                },
                None => (if !only_captures {
                    seq![Move::spec_move_piece(piece, square(x, y))]
                } else {
                    Seq::empty()
                }) + self.slide(piece, x + dx, y + dy, dx, dy, k + 1, only_captures),
            }
        }
    }

    /// The whole ray of a piece in direction `(dx, dy)`.
    pub open spec fn ray(self, piece: Piece, dx: int, dy: int, only_captures: bool) -> Seq<Move> {
        self.slide(piece, piece.position.x + dx, piece.position.y + dy, dx, dy, 1, only_captures)
    }

    /// The moves of a rook: its rays towards the h-file, towards the a-file,
    /// up the board and down the board.
    pub open spec fn rook_moves(self, piece: Piece, only_captures: bool) -> Seq<Move> {
        self.ray(piece, 1, 0, only_captures) + self.ray(piece, -1, 0, only_captures) + self.ray(
            piece,
            0,
            1,
            only_captures,
        ) + self.ray(piece, 0, -1, only_captures)
    }

    /// The moves of a bishop: its four diagonal rays.
    pub open spec fn bishop_moves(self, piece: Piece, only_captures: bool) -> Seq<Move> {
        self.ray(piece, 1, 1, only_captures) + self.ray(piece, -1, 1, only_captures) + self.ray(
            piece,
            -1,
            -1,
            only_captures,
        ) + self.ray(piece, 1, -1, only_captures)
    }

    /// A pawn's move onto a square diagonally ahead: a capture if a piece of
    /// the other color stands there, with a promotion to a queen on the
    /// farthest rank, and, where the squares a pawn controls
    /// are asked for, a plain move if the square is empty.
    pub open spec fn pawn_diagonal(self, piece: Piece, x: int, y: int, include_control: bool)
        -> Seq<Move> {
        if !inside(x, y) {
            Seq::empty()
        } else {
            match self.piece_at(x, y) {
                Some(target) => if target.color != piece.color {
                    if y == back_rank(piece.color.spec_other()) {
                        seq![Move::spec_capture_and_promote(piece, target, Type::Queen)]
                    } else {
                        seq![Move::spec_capture_piece(piece, target)]
                    }
                } else {
                    Seq::empty()
                },
                None => if include_control {
                    seq![Move::spec_move_piece(piece, square(x, y))]
                } else {
                    Seq::empty()
                },
            }
        }
    }

    /// A pawn's moves straight ahead: onto the farthest rank a promotion to
    /// a queen; else, unless only captures or controlled squares are asked
    /// for, one square if it is empty and from the pawn's starting rank a
    /// second one if that is empty too.
    pub open spec fn pawn_ahead(self, piece: Piece, only_captures: bool, include_control: bool)
        -> Seq<Move> {
        let x = piece.position.x as int;
        let y = piece.position.y as int;
        let dir = ahead(piece.color);
        let last = back_rank(piece.color.spec_other());
        let start = back_rank(piece.color) + dir;
        if !inside(x, y + dir) || self.piece_at(x, y + dir).is_some() {
            Seq::empty()
        } else if y + dir == last {
            seq![Move::spec_promote(piece, square(x, y + dir), Type::Queen)]
        } else if only_captures || include_control {
            Seq::empty()
        } else if y == start && self.piece_at(x, y + 2 * dir).is_none() {
            seq![
                Move::spec_move_piece(piece, square(x, y + dir)),
                Move::spec_move_piece(piece, square(x, y + 2 * dir)),
            ]
        } else {
            seq![Move::spec_move_piece(piece, square(x, y + dir))]
        }
    }

    /// The moves of a pawn: its move towards the a-file, its move towards the
    /// h-file, then its moves straight ahead.
    pub open spec fn pawn_moves(self, piece: Piece, only_captures: bool, include_control: bool)
        -> Seq<Move> {
        let x = piece.position.x as int;
        let y = piece.position.y as int;
        let dir = ahead(piece.color);
        self.pawn_diagonal(piece, x - 1, y + dir, include_control) + self.pawn_diagonal(
            piece,
            x + 1,
            y + dir,
            include_control,
        ) + self.pawn_ahead(piece, only_captures, include_control)
    }

    /// The moves of one piece.
    pub open spec fn piece_moves(self, piece: Piece, only_captures: bool, include_control: bool)
        -> Seq<Move> {
        match piece.t {
            Type::Pawn => self.pawn_moves(piece, only_captures, include_control),
            Type::Rook => self.rook_moves(piece, only_captures),
            Type::Bishop => self.bishop_moves(piece, only_captures),
            Type::King => self.king_moves(piece, only_captures),
            Type::Queen => self.rook_moves(piece, only_captures) + self.bishop_moves(
                piece,
                only_captures,
            ),
            Type::Knight => self.jumps(piece, 8, only_captures),
        }
    }

    /// The moves of the pieces in the first `n` slots of a side.
    pub open spec fn moves_upto(
        self,
        color: Color,
        n: int,
        only_captures: bool,
        include_control: bool,
    ) -> Seq<Move>
        decreases n,
    {
        if n <= 0 {
            Seq::empty()
        } else {
            self.moves_upto(color, n - 1, only_captures, include_control) + match self.list(
                color,
            )[n - 1] {
                Some(piece) => self.piece_moves(piece, only_captures, include_control),
                None => Seq::empty(),
            }
        }
    }

    /// All moves of a side, slot by slot over the slots handed out.
    pub open spec fn all_moves(self, color: Color, only_captures: bool, include_control: bool)
        -> Seq<Move> {
        self.moves_upto(color, self.used(color), only_captures, include_control)
    }
}

} // verus!
