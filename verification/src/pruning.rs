//! The alpha-beta search finds what a full minimax search finds: pruning
//! changes how many positions are visited, never the move or its score.

use crate::board2::Move;
use crate::model::BoardView;
use crate::piece2::Color;
use vstd::prelude::*;

verus! {

/// How a value `v` found under the window from `lo` to `hi` relates to the
/// true value `x`: inside the window it is exact, outside it lies on the
/// same side of the window as the true value.
pub open spec fn in_window(v: int, x: int, lo: int, hi: int) -> bool {
    &&& lo < x < hi ==> v == x
    &&& x <= lo ==> v <= lo
    &&& x >= hi ==> v >= hi
}

/// The greater of two values.
pub open spec fn greater(a: int, b: int) -> int {
    if a >= b {
        a
    } else {
        b
    }
}

/// Whether two moves are the same but for their scores.
pub open spec fn same_move(a: Move, b: Move) -> bool {
    a.action == b.action && a.piece_ref == b.piece_ref && a.flags == b.flags
}

/// The lowest score, with which a search starts.
pub open spec fn lowest() -> Move {
    Move::spec_new_evaluate((-i32::MAX) as i32)
}

/// The highest score, which ends a search when it is reached.
pub open spec fn highest() -> Move {
    Move::spec_new_evaluate(i32::MAX)
}

impl BoardView {
    /// The material in the first `n` slots of a side is at most `n` kings.
    pub proof fn lemma_material_bound(self, color: Color, n: int)
        requires
            0 <= n,
        ensures
            0 <= self.material_upto(color, n) <= 10000 * n,
        decreases n,
    {
        if n > 0 {
            self.lemma_material_bound(color, n - 1);
        }
    }

    /// No static evaluation is beyond the material of sixteen kings.
    pub proof fn lemma_evaluation_bound(self, turn: Color)
        ensures
            -160000 <= self.evaluation(turn) <= 160000,
    {
        self.lemma_material_bound(Color::White, 16);
        self.lemma_material_bound(Color::Black, 16);
    }

    /// The evaluation of a position for one side is the negation of its
    /// evaluation for the other side.
    pub proof fn lemma_evaluation_sign(self, turn: Color)
        ensures
            self.evaluation(turn.spec_other()) == -self.evaluation(turn),
    {
    }

    /// No negamax value is beyond the material of sixteen kings.
    pub proof fn lemma_negamax_bound(self, turn: Color, depth: int, parent: Move)
        ensures
            -160000 <= self.negamax(turn, depth, parent) <= 160000,
        decreases depth, 1int, 0int,
    {
        self.lemma_evaluation_bound(turn);
        if !self.is_leaf(turn, depth, parent) {
            self.lemma_ordered_playable(turn);
            self.lemma_negamax_from_bound(turn, depth, self.ordered_moves(turn), 0);
        }
    }

    /// The best value of one move or more is no further out either.
    pub proof fn lemma_negamax_from_bound(self, turn: Color, depth: int, moves: Seq<Move>, i: int)
        requires
            1 <= depth,
            0 <= i < moves.len(),
        ensures
            -160000 <= self.negamax_from(turn, depth, moves, i) <= 160000,
        decreases depth, 0int, moves.len() - i,
    {
        self.apply(moves[i]).lemma_negamax_bound(turn.spec_other(), depth - 1, moves[i]);
        let value = self.reply_value(turn, depth, moves[i]);
        assert(-160000 <= value <= 160000);
        if i + 1 < moves.len() {
            self.lemma_negamax_from_bound(turn, depth, moves, i + 1);
        } else {
            assert(self.negamax_from(turn, depth, moves, i + 1) == -i32::MAX);
        }
    }

    /// The score that a search under a window finds stands to the negamax
    /// value of the position as the window allows: exact inside the window,
    /// on the right side of it outside.
    pub proof fn lemma_search_window(
        self,
        turn: Color,
        depth: int,
        alpha: Move,
        beta: Move,
        parent: Move,
    )
        requires
            i32::MIN < alpha.score < beta.score,
        ensures
            in_window(
                self.search(turn, depth, alpha, beta, parent).0.score as int,
                self.negamax(turn, depth, parent),
                alpha.score as int,
                beta.score as int,
            ),
            self.search(turn, depth, alpha, beta, parent).0.score > i32::MIN,
        decreases depth, 1int, 0int,
    {
        self.lemma_evaluation_bound(turn);
        if !self.is_leaf(turn, depth, parent) {
            self.lemma_search_from_window(
                turn,
                depth,
                alpha,
                beta,
                self.ordered_moves(turn),
                0,
                self.all_moves(turn).len() as int,
            );
        }
    }

    /// The score that a search finds from its `i`-th move on is the greater
    /// of the score it started with and the best value of the moves left,
    /// unless that reaches the upper end of the window.
    #[verifier::rlimit(50)]
    pub proof fn lemma_search_from_window(
        self,
        turn: Color,
        depth: int,
        alpha: Move,
        beta: Move,
        moves: Seq<Move>,
        i: int,
        count: int,
    )
        requires
            1 <= depth,
            0 <= i <= moves.len(),
            i32::MIN < alpha.score < beta.score,
        ensures
            ({
                let v = self.search_from(turn, depth, alpha, beta, moves, i, count).0.score as int;
                let best = greater(
                    alpha.score as int,
                    self.negamax_from(turn, depth, moves, i),
                );
                &&& best < beta.score ==> v == best
                &&& best >= beta.score ==> v >= beta.score
                &&& v > i32::MIN
            }),
        decreases depth, 0int, moves.len() - i,
    {
        if i < moves.len() {
            let m = moves[i];
            let child = self.apply(m);
            child.lemma_search_window(
                turn.spec_other(),
                depth - 1,
                beta.negated(),
                alpha.negated(),
                m,
            );
            let reply = child.search(
                turn.spec_other(),
                depth - 1,
                beta.negated(),
                alpha.negated(),
                m,
            );
            let score = -reply.0.score;
            let value = self.reply_value(turn, depth, m);
            assert(in_window(score, value, alpha.score as int, beta.score as int));
            if score >= beta.score {
            } else if score > alpha.score {
                self.lemma_search_from_window(
                    turn,
                    depth,
                    Move { score: score as i32, ..m },
                    beta,
                    moves,
                    i + 1,
                    count + reply.1,
                );
            } else {
                self.lemma_search_from_window(
                    turn,
                    depth,
                    alpha,
                    beta,
                    moves,
                    i + 1,
                    count + reply.1,
                );
            }
        }
    }

    /// Under a window whose upper end is the highest score, the search from
    /// its `i`-th move on chooses the move that a full search chooses.
    #[verifier::rlimit(50)]
    pub proof fn lemma_search_from_choice(
        self,
        turn: Color,
        depth: int,
        alpha: Move,
        moves: Seq<Move>,
        i: int,
        count: int,
    )
        requires
            1 <= depth,
            0 <= i <= moves.len(),
            i32::MIN < alpha.score < i32::MAX,
        ensures
            self.search_from(turn, depth, alpha, highest(), moves, i, count).0
                == self.minimax_choice(turn, depth, alpha, moves, i),
        decreases moves.len() - i,
    {
        if i < moves.len() {
            let m = moves[i];
            let child = self.apply(m);
            let beta = highest();
            child.lemma_search_window(
                turn.spec_other(),
                depth - 1,
                beta.negated(),
                alpha.negated(),
                m,
            );
            child.lemma_negamax_bound(turn.spec_other(), depth - 1, m);
            let reply = child.search(
                turn.spec_other(),
                depth - 1,
                beta.negated(),
                alpha.negated(),
                m,
            );
            let score = -reply.0.score;
            let value = self.reply_value(turn, depth, m);
            assert(in_window(score, value, alpha.score as int, beta.score as int));
            if value > alpha.score {
                assert(score == value);
                self.lemma_search_from_choice(
                    turn,
                    depth,
                    Move { score: score as i32, ..m },
                    moves,
                    i + 1,
                    count + reply.1,
                );
            } else {
                assert(score <= alpha.score);
                self.lemma_search_from_choice(turn, depth, alpha, moves, i + 1, count + reply.1);
            }
        }
    }

    /// The score of the move that a full search chooses is the greater of the
    /// score it started with and the best value of the moves left.
    pub proof fn lemma_minimax_choice_score(
        self,
        turn: Color,
        depth: int,
        best: Move,
        moves: Seq<Move>,
        i: int,
    )
        requires
            1 <= depth,
            0 <= i <= moves.len(),
            i32::MIN < best.score,
        ensures
            self.minimax_choice(turn, depth, best, moves, i).score == greater(
                best.score as int,
                self.negamax_from(turn, depth, moves, i),
            ),
        decreases moves.len() - i,
    {
        if i < moves.len() {
            let m = moves[i];
            self.apply(m).lemma_negamax_bound(turn.spec_other(), depth - 1, m);
            let value = self.reply_value(turn, depth, m);
            if value > best.score {
                self.lemma_minimax_choice_score(
                    turn,
                    depth,
                    Move { score: value as i32, ..m },
                    moves,
                    i + 1,
                );
            } else {
                self.lemma_minimax_choice_score(turn, depth, best, moves, i + 1);
            }
        }
    }

    /// The score of the move that a full search finds is the negamax value of
    /// the position.
    pub proof fn lemma_minimax_score(self, turn: Color, depth: int, parent: Move)
        ensures
            self.minimax(turn, depth, parent).score == self.negamax(turn, depth, parent),
    {
        self.lemma_evaluation_bound(turn);
        if !self.is_leaf(turn, depth, parent) {
            self.lemma_ordered_playable(turn);
            self.lemma_minimax_choice_score(turn, depth, lowest(), self.ordered_moves(turn), 0);
            self.lemma_negamax_from_bound(turn, depth, self.ordered_moves(turn), 0);
        }
    }

    /// Pruning never changes the result: started with the full window, the
    /// alpha-beta search of a position finds the move that a full minimax
    /// search over the same moves in the same order finds, with the same
    /// score.
    pub proof fn lemma_alpha_beta_is_minimax(self, turn: Color, depth: int, parent: Move)
        ensures
            self.search(turn, depth, lowest(), highest(), parent).0 == self.minimax(
                turn,
                depth,
                parent,
            ),
            self.search(turn, depth, lowest(), highest(), parent).0.score == self.negamax(
                turn,
                depth,
                parent,
            ),
    {
        self.lemma_minimax_score(turn, depth, parent);
        if !self.is_leaf(turn, depth, parent) {
            self.lemma_search_from_choice(
                turn,
                depth,
                lowest(),
                self.ordered_moves(turn),
                0,
                self.all_moves(turn).len() as int,
            );
        }
    }

    /// No value of a full search is beyond the material of sixteen kings.
    pub proof fn lemma_full_value_bound(self, turn: Color, depth: int, parent: Move)
        ensures
            -160000 <= self.full_value(turn, depth, parent) <= 160000,
        decreases depth, 1int, 0int,
    {
        self.lemma_evaluation_bound(turn);
        if depth > 0 && !self.king_taken(parent) && self.all_moves(turn).len() > 0 {
            self.lemma_full_value_from_bound(turn, depth, self.all_moves(turn), 0);
        }
    }

    /// The greatest value of one move or more is no further out either.
    pub proof fn lemma_full_value_from_bound(
        self,
        turn: Color,
        depth: int,
        moves: Seq<Move>,
        i: int,
    )
        requires
            1 <= depth,
            0 <= i < moves.len(),
        ensures
            -160000 <= self.full_value_from(turn, depth, moves, i) <= 160000,
        decreases depth, 0int, moves.len() - i,
    {
        self.apply(moves[i]).lemma_full_value_bound(turn.spec_other(), depth - 1, moves[i]);
        let value = self.full_reply(turn, depth, moves[i]);
        assert(-160000 <= value <= 160000);
        if i + 1 < moves.len() {
            self.lemma_full_value_from_bound(turn, depth, moves, i + 1);
        } else {
            assert(self.full_value_from(turn, depth, moves, i + 1) == -i32::MAX);
        }
    }

    /// The greatest value from the `i`-th move on is the value of one of
    /// these moves and no less than the value of any of them.
    pub proof fn lemma_full_value_from_is_greatest(
        self,
        turn: Color,
        depth: int,
        moves: Seq<Move>,
        i: int,
    )
        requires
            1 <= depth,
            0 <= i <= moves.len(),
        ensures
            forall|j: int|
                i <= j < moves.len() ==> self.full_value_from(turn, depth, moves, i)
                    >= self.full_reply(turn, depth, #[trigger] moves[j]),
            i < moves.len() ==> exists|j: int|
                i <= j < moves.len() && self.full_value_from(turn, depth, moves, i)
                    == self.full_reply(turn, depth, #[trigger] moves[j]),
        decreases moves.len() - i,
    {
        if i < moves.len() {
            self.lemma_full_value_from_is_greatest(turn, depth, moves, i + 1);
            let rest = self.full_value_from(turn, depth, moves, i + 1);
            let value = self.full_reply(turn, depth, moves[i]);
            self.apply(moves[i]).lemma_full_value_bound(turn.spec_other(), depth - 1, moves[i]);
            if value >= rest || i + 1 == moves.len() {
                assert(self.full_value_from(turn, depth, moves, i) == self.full_reply(
                    turn,
                    depth,
                    moves[i],
                ));
            } else {
                let j = choose|j: int|
                    i + 1 <= j < moves.len() && rest == self.full_reply(
                        turn,
                        depth,
                        #[trigger] moves[j],
                    );
                assert(self.full_value_from(turn, depth, moves, i) == self.full_reply(
                    turn,
                    depth,
                    moves[j],
                ));
            }
        }
    }

    /// The greatest value over a sequence of moves does not depend on their
    /// order.
    pub proof fn lemma_full_value_from_any_order(
        self,
        turn: Color,
        depth: int,
        a: Seq<Move>,
        b: Seq<Move>,
    )
        requires
            1 <= depth,
            a.to_multiset() == b.to_multiset(),
        ensures
            self.full_value_from(turn, depth, a, 0) == self.full_value_from(turn, depth, b, 0),
    {
        broadcast use vstd::seq_lib::group_to_multiset_ensures;

        self.lemma_full_value_from_is_greatest(turn, depth, a, 0);
        self.lemma_full_value_from_is_greatest(turn, depth, b, 0);
        a.to_multiset_ensures();
        b.to_multiset_ensures();
        if a.len() > 0 {
            let j = choose|j: int|
                0 <= j < a.len() && self.full_value_from(turn, depth, a, 0) == self.full_reply(
                    turn,
                    depth,
                    #[trigger] a[j],
                );
            assert(a.to_multiset().count(a[j]) > 0);
            assert(b.contains(a[j]));
            let k = choose|k: int| 0 <= k < b.len() && b[k] == a[j];
            assert(self.full_value_from(turn, depth, b, 0) >= self.full_reply(turn, depth, b[k]));
            let j = choose|j: int|
                0 <= j < b.len() && self.full_value_from(turn, depth, b, 0) == self.full_reply(
                    turn,
                    depth,
                    #[trigger] b[j],
                );
            assert(b.to_multiset().count(b[j]) > 0);
            assert(a.contains(b[j]));
            let k = choose|k: int| 0 <= k < a.len() && a[k] == b[j];
            assert(self.full_value_from(turn, depth, a, 0) >= self.full_reply(turn, depth, a[k]));
        } else {
            assert(a.to_multiset().len() == 0);
            assert(b.len() == 0);
        }
    }

    /// Over moves whose values are the same in both, the negamax value and
    /// the value of the full search are the same.
    pub proof fn lemma_negamax_from_is_full(self, turn: Color, depth: int, moves: Seq<Move>, i: int)
        requires
            1 <= depth,
            0 <= i <= moves.len(),
            forall|j: int|
                i <= j < moves.len() ==> self.reply_value(turn, depth, #[trigger] moves[j])
                    == self.full_reply(turn, depth, moves[j]),
        ensures
            self.negamax_from(turn, depth, moves, i) == self.full_value_from(turn, depth, moves, i),
        decreases moves.len() - i,
    {
        if i < moves.len() {
            self.lemma_negamax_from_is_full(turn, depth, moves, i + 1);
            assert(self.reply_value(turn, depth, moves[i]) == self.full_reply(
                turn,
                depth,
                moves[i],
            ));
        }
    }

    /// Where every move generated within `depth` plies can be played, the
    /// negamax value of a position is its value in a full search over every
    /// generated move.
    pub proof fn lemma_negamax_is_full(self, turn: Color, depth: int, parent: Move)
        requires
            self.all_playable(turn, depth, parent),
        ensures
            self.negamax(turn, depth, parent) == self.full_value(turn, depth, parent),
        decreases depth,
    {
        let all = self.all_moves(turn);
        if depth > 0 && !self.king_taken(parent) {
            assert forall|i: int| 0 <= i < all.len() implies self.playable(#[trigger] all[i]) by {
                assert(self.playable(self.all_moves(turn)[i]));
            }
            self.lemma_playable_all(all, all.len() as int);
            assert(all.subrange(0, all.len() as int) =~= all);
            assert(self.playable_moves(turn) == all);
            if all.len() > 0 {
                let ordered = self.ordered_moves(turn);
                self.lemma_ordered_playable(turn);
                self.lemma_sorted_is_permutation(all);
                assert forall|j: int| 0 <= j < ordered.len() implies self.reply_value(
                    turn,
                    depth,
                    #[trigger] ordered[j],
                ) == self.full_reply(turn, depth, ordered[j]) by {
                    assert(all.contains(ordered[j]));
                    let k = choose|k: int| 0 <= k < all.len() && all[k] == ordered[j];
                    assert(self.playable(self.all_moves(turn)[k]));
                    self.apply(all[k]).lemma_negamax_is_full(turn.spec_other(), depth - 1, all[k]);
                }
                self.lemma_negamax_from_is_full(turn, depth, ordered, 0);
                self.lemma_full_value_from_any_order(turn, depth, ordered, all);
            }
        }
    }

    /// A search with pruning finds the value of a search without: where every
    /// move generated within `depth` plies can be played, the alpha-beta
    /// search started with the full window gives a position the value of the
    /// full search over every generated move.
    pub proof fn lemma_alpha_beta_is_full_search(self, turn: Color, depth: int, parent: Move)
        requires
            self.all_playable(turn, depth, parent),
        ensures
            self.search(turn, depth, lowest(), highest(), parent).0.score == self.full_value(
                turn,
                depth,
                parent,
            ),
    {
        self.lemma_alpha_beta_is_minimax(turn, depth, parent);
        self.lemma_negamax_is_full(turn, depth, parent);
    }

    /// The move that a full search chooses is the best move it started with
    /// or, but for its score, one of the moves it went over.
    pub proof fn lemma_minimax_choice_member(
        self,
        turn: Color,
        depth: int,
        best: Move,
        moves: Seq<Move>,
        i: int,
    )
        requires
            1 <= depth,
            0 <= i <= moves.len(),
        ensures
            self.minimax_choice(turn, depth, best, moves, i) == best || exists|j: int|
                i <= j < moves.len() && same_move(
                    self.minimax_choice(turn, depth, best, moves, i),
                    #[trigger] moves[j],
                ),
        decreases moves.len() - i,
    {
        if i < moves.len() {
            let value = self.reply_value(turn, depth, moves[i]);
            let r = self.minimax_choice(turn, depth, best, moves, i);
            if value > best.score {
                let next = Move { score: value as i32, ..moves[i] };
                self.lemma_minimax_choice_member(turn, depth, next, moves, i + 1);
                if r == next {
                    assert(same_move(r, moves[i]));
                }
            } else {
                self.lemma_minimax_choice_member(turn, depth, best, moves, i + 1);
            }
        }
    }

    /// Where the side to move has a move to play, the search started with
    /// the full window finds one of the moves generated for that side, one
    /// that can be played, and gives it the negamax value of the position.
    pub proof fn lemma_found_is_generated(self, turn: Color, depth: int, parent: Move)
        requires
            !self.is_leaf(turn, depth, parent),
        ensures
            exists|j: int|
                0 <= j < self.all_moves(turn).len() && same_move(
                    self.search(turn, depth, lowest(), highest(), parent).0,
                    #[trigger] self.all_moves(turn)[j],
                ) && self.playable(self.all_moves(turn)[j]),
            self.search(turn, depth, lowest(), highest(), parent).0.score == self.negamax(
                turn,
                depth,
                parent,
            ),
    {
        let ordered = self.ordered_moves(turn);
        let all = self.all_moves(turn);
        let r = self.search(turn, depth, lowest(), highest(), parent).0;
        self.lemma_alpha_beta_is_minimax(turn, depth, parent);
        self.lemma_ordered_playable(turn);
        self.apply(ordered[0]).lemma_negamax_bound(turn.spec_other(), depth - 1, ordered[0]);
        let value = self.reply_value(turn, depth, ordered[0]);
        let first = Move { score: value as i32, ..ordered[0] };
        assert(r == self.minimax_choice(turn, depth, first, ordered, 1));
        self.lemma_minimax_choice_member(turn, depth, first, ordered, 1);
        let k = if r == first {
            0
        } else {
            choose|j: int| 1 <= j < ordered.len() && same_move(r, #[trigger] ordered[j])
        };
        assert(same_move(r, ordered[k]));
        assert(all.contains(ordered[k]));
        let j = choose|j: int| 0 <= j < all.len() && all[j] == ordered[k];
        assert(same_move(r, all[j]) && self.playable(all[j]));
    }
}

} // verus!
