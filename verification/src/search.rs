//! What the search computes: the static evaluation of a position, the order
//! in which moves are tried, and the negamax value under an alpha-beta
//! window.

use crate::board2::{Action, Move};
use crate::model::BoardView;
use crate::piece2::{Color, Type};
use vstd::prelude::*;

verus! {

/// More moves than a side can ever have: sixteen pieces with the moves of a
/// queen each. Each ply of a search needs a buffer window of this size.
pub const PLY_CAPACITY: usize = 448;

/// A count of moves as the search reports it: exact as long as it fits.
pub open spec fn saturate(n: int) -> usize {
    if n > usize::MAX {
        usize::MAX
    } else {
        n as usize
    }
}

impl BoardView {
    /// The material of the pieces in play in the first `n` slots of a side.
    pub open spec fn material_upto(self, color: Color, n: int) -> int
        decreases n,
    {
        if n <= 0 {
            0
        } else {
            let p = self.pieces[n - 1 + 16 * color.bit()];
            self.material_upto(color, n - 1) + if p@.active {
                p@.kind.spec_value()
            } else {
                0
            }
        }
    }

    /// The material of a side: the sum of the values of its pieces in play.
    pub open spec fn material(self, color: Color) -> int {
        self.material_upto(color, 16)
    }

    /// The static evaluation from the point of view of the side to move:
    /// its material minus the other side's.
    pub open spec fn evaluation(self, turn: Color) -> int {
        match turn {
            Color::White => self.material(Color::White) - self.material(Color::Black),
            Color::Black => self.material(Color::Black) - self.material(Color::White),
        }
    }

    /// The position as a leaf of the search.
    pub open spec fn leaf(self, turn: Color) -> Move {
        Move::spec_new_evaluate(self.evaluation(turn) as i32)
    }

    /// The cheap estimate by which moves are ordered: a capture is worth an
    /// eighth of its target less a sixteenth of the taker, a promotion the
    /// new piece, castling a fixed bonus and a quiet move nothing.
    pub open spec fn move_value(self, m: Move) -> int {
        match m.action {
            Action::Move { start, end } => 0,
            Action::Capture { target } => self.piece(target)@.kind.spec_value() / 8 - self.piece(
                m.piece_ref,
            )@.kind.spec_value() / 16,
            Action::CaptureAndPromote { target, t } => self.piece(target)@.kind.spec_value() / 8
                - self.piece(m.piece_ref)@.kind.spec_value() / 16 + t.spec_value(),
            Action::Evaluate => m.score as int,
            Action::Promote { t, end } => t.spec_value(),
            Action::Castle => 1000,
            Action::NoAction => 0,
        }
    }

    /// A sequence ordered by falling value, with one more move put in: behind
    /// every move whose value is at least its own.
    pub open spec fn insert_by_value(self, sorted: Seq<Move>, m: Move) -> Seq<Move>
        decreases sorted.len(),
    {
        if sorted.len() > 0 && self.move_value(sorted.last()) < self.move_value(m) {
            self.insert_by_value(sorted.drop_last(), m).push(sorted.last())
        } else {
            sorted.push(m)
        }
    }

    /// The moves ordered by falling value; moves of equal value keep their
    /// order.
    pub open spec fn sorted_by_value(self, moves: Seq<Move>) -> Seq<Move>
        decreases moves.len(),
    {
        if moves.len() == 0 {
            moves
        } else {
            self.insert_by_value(self.sorted_by_value(moves.drop_last()), moves.last())
        }
    }

    /// Whether the move that led to this position took a king.
    pub open spec fn king_taken(self, parent: Move) -> bool {
        match parent.action {
            Action::Capture { target } => self.piece(target)@.kind == Type::King,
            Action::CaptureAndPromote { target, t } => self.piece(target)@.kind == Type::King,
            _ => false,
        }
    }

    /// The playable ones among the first `n` of a sequence of moves, in their
    /// order.
    pub open spec fn playable_among(self, moves: Seq<Move>, n: int) -> Seq<Move>
        decreases n,
    {
        if n <= 0 {
            Seq::empty()
        } else if self.playable(moves[n - 1]) {
            self.playable_among(moves, n - 1).push(moves[n - 1])
        } else {
            self.playable_among(moves, n - 1)
        }
    }

    /// The moves of a side that can be played: all that are generated, but
    /// for a castling for which king and rook do not stand ready.
    pub open spec fn playable_moves(self, turn: Color) -> Seq<Move> {
        self.playable_among(self.all_moves(turn), self.all_moves(turn).len() as int)
    }

    /// Whether the search stops at this position: no depth is left, a king
    /// was just taken, or the side to move has no move to play.
    pub open spec fn is_leaf(self, turn: Color, depth: int, parent: Move) -> bool {
        depth <= 0 || self.king_taken(parent) || self.playable_moves(turn).len() == 0
    }

    /// The moves of the side to move in the order in which the search tries
    /// them.
    pub open spec fn ordered_moves(self, turn: Color) -> Seq<Move> {
        self.sorted_by_value(self.playable_moves(turn))
    }

    /// The result of the alpha-beta search of a position: the move found with
    /// its score, and the number of moves generated on the way. `parent` is
    /// the move that led to the position.
    pub open spec fn search(self, turn: Color, depth: int, alpha: Move, beta: Move, parent: Move)
        -> (Move, int)
        decreases depth, 1int, 0int,
    {
        if depth <= 0 || self.king_taken(parent) {
            (self.leaf(turn), 0)
        } else if self.playable_moves(turn).len() == 0 {
            (self.leaf(turn), self.all_moves(turn).len() as int)
        } else {
            self.search_from(
                turn,
                depth,
                alpha,
                beta,
                self.ordered_moves(turn),
                0,
                self.all_moves(turn).len() as int,
            )
        }
    }

    /// The search of a position from its `i`-th move on, with the best move
    /// so far in `alpha` and `count` moves generated so far. Each move is
    /// made, answered by a search of one ply less under the negated and
    /// swapped window, and taken back. A reply that reaches `beta` ends the
    /// search with `beta`; one that beats `alpha` replaces it.
    pub open spec fn search_from(
        self,
        turn: Color,
        depth: int,
        alpha: Move,
        beta: Move,
        moves: Seq<Move>,
        i: int,
        count: int,
    ) -> (Move, int)
        decreases depth, 0int, moves.len() - i,
    {
        if depth <= 0 || i < 0 || i >= moves.len() {
            (alpha, count)
        } else {
            let m = moves[i];
            let reply = self.apply(m).search(
                turn.spec_other(),
                depth - 1,
                beta.negated(),
                alpha.negated(),
                m,
            );
            let score = -reply.0.score;
            if score >= beta.score {
                (beta, count + reply.1)
            } else if score > alpha.score {
                self.search_from(
                    turn,
                    depth,
                    Move { score: score as i32, ..m },
                    beta,
                    moves,
                    i + 1,
                    count + reply.1,
                )
            } else {
                self.search_from(turn, depth, alpha, beta, moves, i + 1, count + reply.1)
            }
        }
    }

    /// How many moves of buffer a search of the position needs: none where
    /// it generates none; else room for the moves of the side to move, and
    /// behind them as much as the search of any of the moves it tries needs.
    pub open spec fn need(self, turn: Color, depth: int, alpha: Move, beta: Move, parent: Move)
        -> int
        decreases depth, 1int, 0int,
    {
        if depth <= 0 || self.king_taken(parent) {
            0
        } else if self.playable_moves(turn).len() == 0 {
            self.all_moves(turn).len() as int
        } else {
            self.all_moves(turn).len() + self.need_from(
                turn,
                depth,
                alpha,
                beta,
                self.ordered_moves(turn),
                0,
            )
        }
    }

    /// The largest need of the searches that answer the moves tried from the
    /// `i`-th on, with the best move so far in `alpha`.
    pub open spec fn need_from(
        self,
        turn: Color,
        depth: int,
        alpha: Move,
        beta: Move,
        moves: Seq<Move>,
        i: int,
    ) -> int
        decreases depth, 0int, moves.len() - i,
    {
        if depth <= 0 || i < 0 || i >= moves.len() {
            0
        } else {
            let m = moves[i];
            let below = self.apply(m).need(
                turn.spec_other(),
                depth - 1,
                beta.negated(),
                alpha.negated(),
                m,
            );
            let reply = self.apply(m).search(
                turn.spec_other(),
                depth - 1,
                beta.negated(),
                alpha.negated(),
                m,
            );
            let score = -reply.0.score;
            let later = if score >= beta.score {
                0
            } else if score > alpha.score {
                self.need_from(turn, depth, Move { score: score as i32, ..m }, beta, moves, i + 1)
            } else {
                self.need_from(turn, depth, alpha, beta, moves, i + 1)
            };
            if below >= later {
                below
            } else {
                later
            }
        }
    }

    /// A window of `PLY_CAPACITY` moves for each ply is room enough for any
    /// search.
    pub proof fn lemma_need_bound(
        self,
        turn: Color,
        depth: int,
        alpha: Move,
        beta: Move,
        parent: Move,
    )
        requires
            0 <= depth,
        ensures
            0 <= self.need(turn, depth, alpha, beta, parent) <= depth * PLY_CAPACITY,
        decreases depth, 1int, 0int,
    {
        if !(depth <= 0 || self.king_taken(parent)) {
            self.lemma_all_moves_bound(turn);
            if self.playable_moves(turn).len() != 0 {
                self.lemma_need_from_bound(turn, depth, alpha, beta, self.ordered_moves(turn), 0);
            }
        }
    }

    /// The searches that answer the moves of a position need a window for
    /// each ply below it at most.
    pub proof fn lemma_need_from_bound(
        self,
        turn: Color,
        depth: int,
        alpha: Move,
        beta: Move,
        moves: Seq<Move>,
        i: int,
    )
        requires
            1 <= depth,
        ensures
            0 <= self.need_from(turn, depth, alpha, beta, moves, i) <= (depth - 1) * PLY_CAPACITY,
        decreases depth, 0int, moves.len() - i,
    {
        if 0 <= i < moves.len() {
            let m = moves[i];
            self.apply(m).lemma_need_bound(
                turn.spec_other(),
                depth - 1,
                beta.negated(),
                alpha.negated(),
                m,
            );
            let reply = self.apply(m).search(
                turn.spec_other(),
                depth - 1,
                beta.negated(),
                alpha.negated(),
                m,
            );
            let score = -reply.0.score;
            if score >= beta.score {
            } else if score > alpha.score {
                self.lemma_need_from_bound(
                    turn,
                    depth,
                    Move { score: score as i32, ..m },
                    beta,
                    moves,
                    i + 1,
                );
            } else {
                self.lemma_need_from_bound(turn, depth, alpha, beta, moves, i + 1);
            }
        }
    }

    /// The negamax value of a position: at a leaf its static evaluation, else
    /// the best of the negated values of the positions its moves lead to.
    pub open spec fn negamax(self, turn: Color, depth: int, parent: Move) -> int
        decreases depth, 1int, 0int,
    {
        if self.is_leaf(turn, depth, parent) {
            self.evaluation(turn)
        } else {
            self.negamax_from(turn, depth, self.ordered_moves(turn), 0)
        }
    }

    /// The value to the side to move of playing a move: the negated negamax
    /// value of the position it leads to.
    pub open spec fn reply_value(self, turn: Color, depth: int, m: Move) -> int
        decreases depth, 0int, 0int,
    {
        if depth <= 0 {
            0
        } else {
            -self.apply(m).negamax(turn.spec_other(), depth - 1, m)
        }
    }

    /// The best of the values of the moves from the `i`-th on; the lowest
    /// score there is if there is none.
    pub open spec fn negamax_from(self, turn: Color, depth: int, moves: Seq<Move>, i: int) -> int
        decreases depth, 0int, moves.len() - i + 1,
    {
        if depth <= 0 || i < 0 || i >= moves.len() {
            -i32::MAX
        } else {
            let rest = self.negamax_from(turn, depth, moves, i + 1);
            let value = self.reply_value(turn, depth, moves[i]);
            if value >= rest {
                value
            } else {
                rest
            }
        }
    }

    /// The move a full search without pruning chooses among the moves from
    /// the `i`-th on, given the best move so far: each move whose value beats
    /// the best so far replaces it.
    pub open spec fn minimax_choice(
        self,
        turn: Color,
        depth: int,
        best: Move,
        moves: Seq<Move>,
        i: int,
    ) -> Move
        decreases depth, 0int, moves.len() - i + 1,
    {
        if depth <= 0 || i < 0 || i >= moves.len() {
            best
        } else {
            let value = self.reply_value(turn, depth, moves[i]);
            if value > best.score {
                self.minimax_choice(
                    turn,
                    depth,
                    Move { score: value as i32, ..moves[i] },
                    moves,
                    i + 1,
                )
            } else {
                self.minimax_choice(turn, depth, best, moves, i + 1)
            }
        }
    }

    /// The move a full search without pruning finds at a position, with its
    /// score: at a leaf the static evaluation, else the first move of the
    /// best value.
    pub open spec fn minimax(self, turn: Color, depth: int, parent: Move) -> Move {
        if self.is_leaf(turn, depth, parent) {
            self.leaf(turn)
        } else {
            self.minimax_choice(
                turn,
                depth,
                Move::spec_new_evaluate((-i32::MAX) as i32),
                self.ordered_moves(turn),
                0,
            )
        }
    }

    /// Whether every move that is generated within `depth` plies of the
    /// position can be played: no castling is generated there for which king
    /// and rook do not stand ready.
    pub open spec fn all_playable(self, turn: Color, depth: int, parent: Move) -> bool
        decreases depth,
    {
        depth <= 0 || self.king_taken(parent) || forall|i: int|
            0 <= i < self.all_moves(turn).len() ==> {
                &&& self.playable(#[trigger] self.all_moves(turn)[i])
                &&& self.apply(self.all_moves(turn)[i]).all_playable(
                    turn.spec_other(),
                    depth - 1,
                    self.all_moves(turn)[i],
                )
            }
    }

    /// The value of a position in a full search over every generated move:
    /// its static evaluation where no depth is left, a king was just taken or
    /// no move is generated; else the greatest of the negated values of the
    /// positions that the generated moves lead to.
    pub open spec fn full_value(self, turn: Color, depth: int, parent: Move) -> int
        decreases depth, 1int, 0int,
    {
        if depth <= 0 || self.king_taken(parent) || self.all_moves(turn).len() == 0 {
            self.evaluation(turn)
        } else {
            self.full_value_from(turn, depth, self.all_moves(turn), 0)
        }
    }

    /// The value to the side to move of a move in the full search: the
    /// negated value of the position it leads to.
    pub open spec fn full_reply(self, turn: Color, depth: int, m: Move) -> int
        decreases depth, 0int, 0int,
    {
        if depth <= 0 {
            0
        } else {
            -self.apply(m).full_value(turn.spec_other(), depth - 1, m)
        }
    }

    /// The greatest of the values of the moves from the `i`-th on in the full
    /// search; the lowest score there is if there is none.
    pub open spec fn full_value_from(self, turn: Color, depth: int, moves: Seq<Move>, i: int) -> int
        decreases depth, 0int, moves.len() - i + 1,
    {
        if depth <= 0 || i < 0 || i >= moves.len() {
            -i32::MAX
        } else {
            let rest = self.full_value_from(turn, depth, moves, i + 1);
            let value = self.full_reply(turn, depth, moves[i]);
            if value >= rest {
                value
            } else {
                rest
            }
        }
    }

    /// A sequence ordered by value holds the moves it was made from, each as
    /// often as before.
    pub proof fn lemma_insert_by_value_members(self, sorted: Seq<Move>, m: Move)
        ensures
            self.insert_by_value(sorted, m).len() == sorted.len() + 1,
            self.insert_by_value(sorted, m).to_multiset() == sorted.to_multiset().insert(m),
        decreases sorted.len(),
    {
        broadcast use vstd::seq_lib::group_to_multiset_ensures;

        if sorted.len() > 0 && self.move_value(sorted.last()) < self.move_value(m) {
            self.lemma_insert_by_value_members(sorted.drop_last(), m);
            assert(sorted.drop_last().push(sorted.last()) =~= sorted);
            assert(self.insert_by_value(sorted, m).to_multiset() =~= sorted.to_multiset().insert(
                m,
            ));
        }
    }

    /// Ordering moves by value only rearranges them.
    pub proof fn lemma_sorted_is_permutation(self, moves: Seq<Move>)
        ensures
            self.sorted_by_value(moves).len() == moves.len(),
            self.sorted_by_value(moves).to_multiset() == moves.to_multiset(),
        decreases moves.len(),
    {
        broadcast use vstd::seq_lib::group_to_multiset_ensures;

        if moves.len() > 0 {
            self.lemma_sorted_is_permutation(moves.drop_last());
            self.lemma_insert_by_value_members(
                self.sorted_by_value(moves.drop_last()),
                moves.last(),
            );
            assert(moves.drop_last().push(moves.last()) =~= moves);
        }
    }

    /// Putting a move into a sequence of falling values leaves one.
    #[verifier::rlimit(50)]
    pub proof fn lemma_insert_by_value_falls(self, sorted: Seq<Move>, m: Move)
        requires
            self.falling(sorted),
        ensures
            self.falling(self.insert_by_value(sorted, m)),
        decreases sorted.len(),
    {
        let out = self.insert_by_value(sorted, m);
        if sorted.len() > 0 && self.move_value(sorted.last()) < self.move_value(m) {
            let front = sorted.drop_last();
            assert(self.falling(front)) by {
                assert forall|i: int, j: int| 0 <= i <= j < front.len() implies self.move_value(
                    front[i],
                ) >= self.move_value(front[j]) by {
                    assert(front[i] == sorted[i] && front[j] == sorted[j]);
                }
            }
            self.lemma_insert_by_value_falls(front, m);
            self.lemma_insert_by_value_members(front, m);
            self.lemma_insert_by_value_floor(front, m, self.move_value(sorted.last()));
            let inner = self.insert_by_value(front, m);
            assert forall|i: int, j: int| 0 <= i <= j < out.len() implies self.move_value(out[i])
                >= self.move_value(out[j]) by {
                if j < inner.len() {
                    assert(out[i] == inner[i] && out[j] == inner[j]);
                } else if i < inner.len() {
                    assert(out[i] == inner[i]);
                }
            }
        } else {
            assert forall|i: int, j: int| 0 <= i <= j < out.len() implies self.move_value(out[i])
                >= self.move_value(out[j]) by {
                if j < sorted.len() {
                    assert(out[i] == sorted[i] && out[j] == sorted[j]);
                } else if i < sorted.len() {
                    assert(out[i] == sorted[i]);
                    assert(self.move_value(sorted[i]) >= self.move_value(sorted.last()));
                }
            }
        }
    }

    /// Putting a move into a sequence whose values are all at least `floor`
    /// leaves such a sequence, if the move's value is at least `floor` too.
    pub proof fn lemma_insert_by_value_floor(self, sorted: Seq<Move>, m: Move, floor: int)
        requires
            forall|i: int| 0 <= i < sorted.len() ==> self.move_value(#[trigger] sorted[i]) >= floor,
            self.move_value(m) >= floor,
        ensures
            forall|i: int|
                0 <= i < self.insert_by_value(sorted, m).len() ==> self.move_value(
                    #[trigger] self.insert_by_value(sorted, m)[i],
                ) >= floor,
        decreases sorted.len(),
    {
        if sorted.len() > 0 && self.move_value(sorted.last()) < self.move_value(m) {
            let front = sorted.drop_last();
            assert forall|i: int| 0 <= i < front.len() implies self.move_value(
                #[trigger] front[i],
            ) >= floor by {
                assert(front[i] == sorted[i]);
            }
            self.lemma_insert_by_value_floor(front, m, floor);
            let inner = self.insert_by_value(front, m);
            let out = self.insert_by_value(sorted, m);
            assert forall|i: int| 0 <= i < out.len() implies self.move_value(#[trigger] out[i])
                >= floor by {
                if i < inner.len() {
                    assert(out[i] == inner[i]);
                } else {
                    assert(out[i] == sorted[sorted.len() - 1]);
                }
            }
        } else {
            let out = self.insert_by_value(sorted, m);
            assert forall|i: int| 0 <= i < out.len() implies self.move_value(#[trigger] out[i])
                >= floor by {
                if i < sorted.len() {
                    assert(out[i] == sorted[i]);
                }
            }
        }
    }

    /// The values of the moves of a sequence never rise.
    pub open spec fn falling(self, moves: Seq<Move>) -> bool {
        forall|i: int, j: int|
            0 <= i <= j < moves.len() ==> self.move_value(moves[i]) >= self.move_value(moves[j])
    }

    /// Moves ordered by value are in the order of falling value.
    pub proof fn lemma_sorted_falls(self, moves: Seq<Move>)
        ensures
            self.falling(self.sorted_by_value(moves)),
        decreases moves.len(),
    {
        if moves.len() > 0 {
            self.lemma_sorted_falls(moves.drop_last());
            self.lemma_insert_by_value_falls(
                self.sorted_by_value(moves.drop_last()),
                moves.last(),
            );
        }
    }

    /// The moves of a sequence that have the value `value`, in their order.
    pub open spec fn moves_of_value(self, moves: Seq<Move>, value: int) -> Seq<Move>
        decreases moves.len(),
    {
        if moves.len() == 0 {
            moves
        } else if self.move_value(moves.last()) == value {
            self.moves_of_value(moves.drop_last(), value).push(moves.last())
        } else {
            self.moves_of_value(moves.drop_last(), value)
        }
    }

    /// A move that is put into a sequence comes behind the moves of its
    /// value.
    pub proof fn lemma_insert_by_value_stable(self, sorted: Seq<Move>, m: Move, value: int)
        ensures
            self.moves_of_value(self.insert_by_value(sorted, m), value) == if self.move_value(m)
                == value {
                self.moves_of_value(sorted, value).push(m)
            } else {
                self.moves_of_value(sorted, value)
            },
        decreases sorted.len(),
    {
        if sorted.len() > 0 && self.move_value(sorted.last()) < self.move_value(m) {
            let inner = self.insert_by_value(sorted.drop_last(), m);
            self.lemma_insert_by_value_stable(sorted.drop_last(), m, value);
            assert(inner.push(sorted.last()).drop_last() =~= inner);
        } else {
            assert(sorted.push(m).drop_last() =~= sorted);
        }
    }

    /// The order is stable: moves of equal value stand in the ordered
    /// sequence in the order in which they stood before.
    pub proof fn lemma_sorted_stable(self, moves: Seq<Move>, value: int)
        ensures
            self.moves_of_value(self.sorted_by_value(moves), value) == self.moves_of_value(
                moves,
                value,
            ),
        decreases moves.len(),
    {
        if moves.len() > 0 {
            self.lemma_sorted_stable(moves.drop_last(), value);
            self.lemma_insert_by_value_stable(
                self.sorted_by_value(moves.drop_last()),
                moves.last(),
                value,
            );
        }
    }

    /// Every one of the playable moves can be played.
    pub proof fn lemma_playable_among(self, moves: Seq<Move>, n: int)
        requires
            n <= moves.len(),
        ensures
            self.playable_among(moves, n).len() <= if n > 0 {
                n
            } else {
                0
            },
            forall|i: int|
                0 <= i < self.playable_among(moves, n).len() ==> self.playable(
                    #[trigger] self.playable_among(moves, n)[i],
                ) && moves.contains(self.playable_among(moves, n)[i]),
        decreases n,
    {
        if n > 0 {
            self.lemma_playable_among(moves, n - 1);
            let fewer = self.playable_among(moves, n - 1);
            let these = self.playable_among(moves, n);
            assert forall|i: int| 0 <= i < these.len() implies self.playable(
                #[trigger] these[i],
            ) && moves.contains(these[i]) by {
                if i < fewer.len() {
                    assert(these[i] == fewer[i]);
                } else {
                    assert(these[i] == moves[n - 1]);
                }
            }
        }
    }

    /// Where every generated move can be played, the moves that the search
    /// goes over are the generated moves.
    pub proof fn lemma_playable_all(self, moves: Seq<Move>, n: int)
        requires
            0 <= n <= moves.len(),
            forall|i: int| 0 <= i < n ==> self.playable(#[trigger] moves[i]),
        ensures
            self.playable_among(moves, n) == moves.subrange(0, n),
        decreases n,
    {
        if n > 0 {
            self.lemma_playable_all(moves, n - 1);
            assert(moves.subrange(0, n - 1).push(moves[n - 1]) =~= moves.subrange(0, n));
        } else {
            assert(moves.subrange(0, 0) =~= Seq::<Move>::empty());
        }
    }

    /// Every move that the search tries can be played.
    pub proof fn lemma_ordered_playable(self, turn: Color)
        ensures
            self.ordered_moves(turn).len() == self.playable_moves(turn).len(),
            forall|i: int|
                0 <= i < self.ordered_moves(turn).len() ==> self.playable(
                    #[trigger] self.ordered_moves(turn)[i],
                ) && self.all_moves(turn).contains(self.ordered_moves(turn)[i]),
    {
        broadcast use vstd::seq_lib::group_to_multiset_ensures;

        let all = self.all_moves(turn);
        let playable = self.playable_moves(turn);
        let ordered = self.ordered_moves(turn);
        self.lemma_playable_among(all, all.len() as int);
        self.lemma_sorted_is_permutation(playable);
        assert forall|i: int| 0 <= i < ordered.len() implies self.playable(
            #[trigger] ordered[i],
        ) && all.contains(ordered[i]) by {
            assert(ordered.to_multiset().count(ordered[i]) > 0);
            assert(playable.to_multiset().count(ordered[i]) > 0);
            assert(playable.contains(ordered[i]));
            let k = choose|k: int| 0 <= k < playable.len() && playable[k] == ordered[i];
            assert(all.contains(playable[k]));
        }
    }
}

} // verus!
