//! The search beside a channel of commands. Every search of a node asks
//! whether a command is waiting, and a command that waits stops the search.
//! What the search gives depends on the channel in one way only: on how
//! often the answer is no before it is yes. This module states the search
//! for every such number. A search that is stopped as it begins goes over
//! the nodes it knows, and a search that ends unstopped has found what the
//! search that runs to its end finds.

use crate::board::Move;
use crate::explore::{
    best_child, fresh_trees, lemma_sorted_trees_members, search_ends, sorted_trees, Tree,
};
use crate::layout::Layout;
use vstd::prelude::*;

verus! {

/// What a search learns when it asks whether a command is waiting: once
/// stopped it stays stopped; else it is told to stop unless the answer is
/// still no, and one answer of no is used up.
pub open spec fn asked(stopped: bool, left: int) -> (bool, int) {
    if stopped {
        (true, left)
    } else if left <= 0 {
        (true, 0)
    } else {
        (false, left - 1)
    }
}

impl Layout {
    /// The search of a node as it runs beside a channel of commands. Every
    /// search of a node first asks whether a command is waiting. `left` is
    /// the number of times that the answer will still be no; the search that
    /// asks after that is told to stop, and so is every search once
    /// `stopped` holds. The result is the score, the node as the search
    /// leaves it, whether the search ends stopped, and how often the answer
    /// will still be no.
    pub open spec fn watch(
        self,
        stopped: bool,
        left: int,
        depth: int,
        alpha: int,
        beta: int,
        node: Tree,
        only_captures: bool,
    ) -> (int, Tree, bool, int)
        decreases depth + 12, 3int, 0int,
    {
        let (told, rest) = asked(stopped, left);
        self.watch_told(told, rest, depth, alpha, beta, node, only_captures)
    }

    /// The search of a node beside a channel of commands, once it has asked
    /// whether a command is waiting and is stopped or not by the answer. A
    /// stopped search generates no moves.
    pub open spec fn watch_told(
        self,
        stopped: bool,
        left: int,
        depth: int,
        alpha: int,
        beta: int,
        node: Tree,
        only_captures: bool,
    ) -> (int, Tree, bool, int)
        decreases depth + 12, 2int, 0int,
    {
        if search_ends(node.m, depth, only_captures) {
            (self.evaluation(), node, stopped, left)
        } else if !node.visited && !stopped {
            let fresh = fresh_trees(self.all_moves(self.turn(), only_captures, false));
            let found = self.watch_children(stopped, left, depth, alpha, beta, fresh, only_captures);
            if only_captures {
                (found.0, node, found.2, found.3)
            } else {
                (found.0, Tree { visited: true, children: found.1, ..node }, found.2, found.3)
            }
        } else {
            let found = self.watch_children(
                stopped,
                left,
                depth,
                alpha,
                beta,
                node.children,
                only_captures,
            );
            (found.0, Tree { children: found.1, ..node }, found.2, found.3)
        }
    }

    /// The search of the children of a node beside a channel of commands.
    pub open spec fn watch_children(
        self,
        stopped: bool,
        left: int,
        depth: int,
        alpha: int,
        beta: int,
        children: Seq<Tree>,
        only_captures: bool,
    ) -> (int, Seq<Tree>, bool, int)
        decreases depth + 12, 1int, 0int,
    {
        if children.len() == 0 {
            (self.evaluation(), children, stopped, left)
        } else {
            self.watch_from(
                stopped,
                left,
                depth,
                alpha,
                beta,
                sorted_trees(children),
                0,
                only_captures,
            )
        }
    }

    /// The search of the children of a node from the `i`-th on beside a
    /// channel of commands: each child is searched as the search of the
    /// child before it left the channel.
    pub open spec fn watch_from(
        self,
        stopped: bool,
        left: int,
        depth: int,
        alpha: int,
        beta: int,
        children: Seq<Tree>,
        i: int,
        only_captures: bool,
    ) -> (int, Seq<Tree>, bool, int)
        decreases depth + 12, 0int, children.len() - i,
    {
        if depth < -10 || i < 0 || i >= children.len() {
            (alpha, children, stopped, left)
        } else if !self.can_make(children[i].m) {
            self.watch_from(stopped, left, depth, alpha, beta, children, i + 1, only_captures)
        } else {
            let answer = self.push(children[i].m).watch(
                stopped,
                left,
                depth - 1,
                -beta,
                -alpha,
                children[i],
                only_captures,
            );
            let score = -answer.0;
            let child = Tree { m: Move { score: score as i16, ..answer.1.m }, ..answer.1 };
            let searched = children.update(i, child);
            if score >= beta {
                (beta, searched, answer.2, answer.3)
            } else if score > alpha {
                self.watch_from(
                    answer.2,
                    answer.3,
                    depth,
                    score,
                    beta,
                    searched,
                    i + 1,
                    only_captures,
                )
            } else {
                self.watch_from(
                    answer.2,
                    answer.3,
                    depth,
                    alpha,
                    beta,
                    searched,
                    i + 1,
                    only_captures,
                )
            }
        }
    }

    /// Whether a search of a node that began unstopped may have given the
    /// score `score`, left the node as `tree` and ended stopped or not,
    /// having asked `polls` times for a command without being told of one.
    /// A search that ends unstopped is the search beside any channel that
    /// answers no that often; one that ends stopped is the search beside a
    /// channel that answers no exactly that often.
    pub open spec fn watched(
        self,
        polls: int,
        depth: int,
        alpha: int,
        beta: int,
        node: Tree,
        only_captures: bool,
        score: int,
        tree: Tree,
        stopped: bool,
    ) -> bool {
        if stopped {
            self.watch(false, polls, depth, alpha, beta, node, only_captures) == (
                score,
                tree,
                true,
                0int,
            )
        } else {
            forall|left: int|
                polls <= left ==> #[trigger] self.watch(
                    false,
                    left,
                    depth,
                    alpha,
                    beta,
                    node,
                    only_captures,
                ) == (score, tree, false, left - polls)
        }
    }

    /// The same for a search that has asked for a command already and was
    /// not told of one.
    pub open spec fn watched_told(
        self,
        polls: int,
        depth: int,
        alpha: int,
        beta: int,
        node: Tree,
        only_captures: bool,
        score: int,
        tree: Tree,
        stopped: bool,
    ) -> bool {
        if stopped {
            self.watch_told(false, polls, depth, alpha, beta, node, only_captures) == (
                score,
                tree,
                true,
                0int,
            )
        } else {
            forall|left: int|
                polls <= left ==> #[trigger] self.watch_told(
                    false,
                    left,
                    depth,
                    alpha,
                    beta,
                    node,
                    only_captures,
                ) == (score, tree, false, left - polls)
        }
    }

    /// The same for the search of the children of a node.
    pub open spec fn watched_children(
        self,
        polls: int,
        depth: int,
        alpha: int,
        beta: int,
        children: Seq<Tree>,
        only_captures: bool,
        score: int,
        trees: Seq<Tree>,
        stopped: bool,
    ) -> bool {
        if stopped {
            self.watch_children(false, polls, depth, alpha, beta, children, only_captures) == (
                score,
                trees,
                true,
                0int,
            )
        } else {
            forall|left: int|
                polls <= left ==> #[trigger] self.watch_children(
                    false,
                    left,
                    depth,
                    alpha,
                    beta,
                    children,
                    only_captures,
                ) == (score, trees, false, left - polls)
        }
    }

    /// The search of the children from the `i`-th on passes over a child
    /// whose move cannot be made.
    pub proof fn lemma_watch_skip(
        self,
        stopped: bool,
        left: int,
        depth: int,
        alpha: int,
        beta: int,
        children: Seq<Tree>,
        i: int,
        only_captures: bool,
    )
        requires
            -10 <= depth,
            0 <= i < children.len(),
            !self.can_make(children[i].m),
        ensures
            self.watch_from(stopped, left, depth, alpha, beta, children, i, only_captures)
                == self.watch_from(stopped, left, depth, alpha, beta, children, i + 1, only_captures),
    {
    }

    /// The search of the children from the `i`-th on, where the move of that
    /// child can be made: the child is searched, and the search goes on with
    /// the next child unless the score reaches `beta`.
    pub proof fn lemma_watch_next(
        self,
        stopped: bool,
        left: int,
        depth: int,
        alpha: int,
        beta: int,
        children: Seq<Tree>,
        i: int,
        only_captures: bool,
    )
        requires
            -10 <= depth,
            0 <= i < children.len(),
            self.can_make(children[i].m),
        ensures
            ({
                let answer = self.push(children[i].m).watch(
                    stopped,
                    left,
                    depth - 1,
                    -beta,
                    -alpha,
                    children[i],
                    only_captures,
                );
                let score = -answer.0;
                let child = Tree { m: Move { score: score as i16, ..answer.1.m }, ..answer.1 };
                let searched = children.update(i, child);
                self.watch_from(stopped, left, depth, alpha, beta, children, i, only_captures)
                    == if score >= beta {
                    (beta, searched, answer.2, answer.3)
                } else {
                    self.watch_from(
                        answer.2,
                        answer.3,
                        depth,
                        if score > alpha {
                            score
                        } else {
                            alpha
                        },
                        beta,
                        searched,
                        i + 1,
                        only_captures,
                    )
                }
            }),
    {
    }

    /// How far the search of the children of a node has come beside a
    /// channel of commands: the search of the ordered children `sorted` from
    /// the first on is the search of `children` from the `i`-th on with the
    /// best score `alpha`, after `polls` answers of no, and stopped or not.
    pub closed spec fn watch_reached(
        self,
        stopped: bool,
        polls: int,
        depth: int,
        first_alpha: int,
        beta: int,
        sorted: Seq<Tree>,
        alpha: int,
        children: Seq<Tree>,
        i: int,
        only_captures: bool,
    ) -> bool {
        if stopped {
            self.watch_from(false, polls, depth, first_alpha, beta, sorted, 0, only_captures)
                == self.watch_from(true, 0, depth, alpha, beta, children, i, only_captures)
        } else {
            forall|left: int|
                polls <= left ==> #[trigger] self.watch_from(
                    false,
                    left,
                    depth,
                    first_alpha,
                    beta,
                    sorted,
                    0,
                    only_captures,
                ) == self.watch_from(
                    false,
                    left - polls,
                    depth,
                    alpha,
                    beta,
                    children,
                    i,
                    only_captures,
                )
        }
    }

    /// Before the first child is searched nothing was asked.
    pub proof fn lemma_watch_start(
        self,
        depth: int,
        alpha: int,
        beta: int,
        sorted: Seq<Tree>,
        only_captures: bool,
    )
        ensures
            self.watch_reached(
                false,
                0,
                depth,
                alpha,
                beta,
                sorted,
                alpha,
                sorted,
                0,
                only_captures,
            ),
    {
    }

    /// A child whose move cannot be made is passed over without asking.
    pub proof fn lemma_watch_passed(
        self,
        stopped: bool,
        polls: int,
        depth: int,
        first_alpha: int,
        beta: int,
        sorted: Seq<Tree>,
        alpha: int,
        children: Seq<Tree>,
        i: int,
        only_captures: bool,
    )
        requires
            -10 <= depth,
            0 <= i < children.len(),
            !self.can_make(children[i].m),
            self.watch_reached(
                stopped,
                polls,
                depth,
                first_alpha,
                beta,
                sorted,
                alpha,
                children,
                i,
                only_captures,
            ),
        ensures
            self.watch_reached(
                stopped,
                polls,
                depth,
                first_alpha,
                beta,
                sorted,
                alpha,
                children,
                i + 1,
                only_captures,
            ),
    {
        if stopped {
            self.lemma_watch_skip(true, 0, depth, alpha, beta, children, i, only_captures);
        } else {
            assert forall|left: int| polls <= left implies #[trigger] self.watch_from(
                false,
                left,
                depth,
                first_alpha,
                beta,
                sorted,
                0,
                only_captures,
            ) == self.watch_from(
                false,
                left - polls,
                depth,
                alpha,
                beta,
                children,
                i + 1,
                only_captures,
            ) by {
                self.lemma_watch_skip(
                    false,
                    left - polls,
                    depth,
                    alpha,
                    beta,
                    children,
                    i,
                    only_captures,
                );
            }
        }
    }

    /// The search of one more child: the child's search asked
    /// `child_polls` times without being told of a command, gave `answer`
    /// and left the child as `sub`. Either the score reaches `beta` and the
    /// search of the children is over, or it goes on with the next child.
    pub proof fn lemma_watch_searched(
        self,
        stopped_before: bool,
        polls: int,
        child_polls: int,
        depth: int,
        first_alpha: int,
        beta: int,
        unsorted: Seq<Tree>,
        alpha: int,
        children: Seq<Tree>,
        i: int,
        only_captures: bool,
        answer: int,
        sub: Tree,
        stopped: bool,
    )
        requires
            -10 <= depth,
            unsorted.len() > 0,
            0 <= i < children.len(),
            0 <= polls,
            0 <= child_polls,
            self.can_make(children[i].m),
            self.watch_reached(
                stopped_before,
                polls,
                depth,
                first_alpha,
                beta,
                sorted_trees(unsorted),
                alpha,
                children,
                i,
                only_captures,
            ),
            stopped_before ==> stopped && (answer, sub) == self.push(children[i].m).explore_known(
                depth - 1,
                -beta,
                -alpha,
                children[i],
                only_captures,
            ),
            !stopped_before ==> self.push(children[i].m).watched(
                child_polls,
                depth - 1,
                -beta,
                -alpha,
                children[i],
                only_captures,
                answer,
                sub,
                stopped,
            ),
        ensures
            ({
                let score = -answer;
                let child = Tree { m: Move { score: score as i16, ..sub.m }, ..sub };
                let searched = children.update(i, child);
                let total = if stopped_before {
                    polls
                } else {
                    polls + child_polls
                };
                if score >= beta {
                    self.watched_children(
                        total,
                        depth,
                        first_alpha,
                        beta,
                        unsorted,
                        only_captures,
                        beta,
                        searched,
                        stopped,
                    )
                } else {
                    self.watch_reached(
                        stopped,
                        total,
                        depth,
                        first_alpha,
                        beta,
                        sorted_trees(unsorted),
                        if score > alpha {
                            score
                        } else {
                            alpha
                        },
                        searched,
                        i + 1,
                        only_captures,
                    )
                }
            }),
    {
        let sorted = sorted_trees(unsorted);
        let pushed = self.push(children[i].m);
        let score = -answer;
        let child = Tree { m: Move { score: score as i16, ..sub.m }, ..sub };
        let searched = children.update(i, child);
        let next_alpha = if score > alpha {
            score
        } else {
            alpha
        };
        let total = if stopped_before {
            polls
        } else {
            polls + child_polls
        };
        lemma_sorted_trees_members(unsorted);
        assert forall|left: int|
            self.watch_children(false, left, depth, first_alpha, beta, unsorted, only_captures)
                == #[trigger] self.watch_from(
                false,
                left,
                depth,
                first_alpha,
                beta,
                sorted,
                0,
                only_captures,
            ) by {}
        if stopped_before {
            pushed.lemma_watch_stopped(0, depth - 1, -beta, -alpha, children[i], only_captures);
            self.lemma_watch_next(true, 0, depth, alpha, beta, children, i, only_captures);
            assert(pushed.watch(true, 0, depth - 1, -beta, -alpha, children[i], only_captures) == (
                answer,
                sub,
                true,
                0int,
            ));
            assert(self.watch_from(true, 0, depth, alpha, beta, children, i, only_captures) == if score
                >= beta {
                (beta, searched, true, 0int)
            } else {
                self.watch_from(true, 0, depth, next_alpha, beta, searched, i + 1, only_captures)
            });
        } else if stopped {
            self.lemma_watch_next(false, child_polls, depth, alpha, beta, children, i, only_captures);
            assert(self.watch_from(
                false,
                polls + child_polls,
                depth,
                first_alpha,
                beta,
                sorted,
                0,
                only_captures,
            ) == self.watch_from(
                false,
                child_polls,
                depth,
                alpha,
                beta,
                children,
                i,
                only_captures,
            ));
        } else {
            assert forall|left: int| polls + child_polls <= left implies (
            #[trigger] self.watch_from(
                false,
                left,
                depth,
                first_alpha,
                beta,
                sorted,
                0,
                only_captures,
            )) == (if score >= beta {
                (beta, searched, false, left - polls - child_polls)
            } else {
                self.watch_from(
                    false,
                    left - polls - child_polls,
                    depth,
                    next_alpha,
                    beta,
                    searched,
                    i + 1,
                    only_captures,
                )
            }) by {
                self.lemma_watch_next(
                    false,
                    left - polls,
                    depth,
                    alpha,
                    beta,
                    children,
                    i,
                    only_captures,
                );
                assert(pushed.watch(
                    false,
                    left - polls,
                    depth - 1,
                    -beta,
                    -alpha,
                    children[i],
                    only_captures,
                ) == (answer, sub, false, left - polls - child_polls));
            }
            if score >= beta {
                assert forall|left: int| total <= left implies #[trigger] self.watch_children(
                    false,
                    left,
                    depth,
                    first_alpha,
                    beta,
                    unsorted,
                    only_captures,
                ) == (beta, searched, false, left - total) by {
                    assert(self.watch_from(
                        false,
                        left,
                        depth,
                        first_alpha,
                        beta,
                        sorted,
                        0,
                        only_captures,
                    ) == (beta, searched, false, left - total));
                }
            }
        }
    }

    /// When every child was gone over, the search of the children is over.
    pub proof fn lemma_watch_over(
        self,
        stopped: bool,
        polls: int,
        depth: int,
        first_alpha: int,
        beta: int,
        unsorted: Seq<Tree>,
        alpha: int,
        children: Seq<Tree>,
        only_captures: bool,
    )
        requires
            unsorted.len() > 0,
            self.watch_reached(
                stopped,
                polls,
                depth,
                first_alpha,
                beta,
                sorted_trees(unsorted),
                alpha,
                children,
                children.len() as int,
                only_captures,
            ),
        ensures
            self.watched_children(
                polls,
                depth,
                first_alpha,
                beta,
                unsorted,
                only_captures,
                alpha,
                children,
                stopped,
            ),
    {
        if !stopped {
            assert forall|left: int| polls <= left implies #[trigger] self.watch_children(
                false,
                left,
                depth,
                first_alpha,
                beta,
                unsorted,
                only_captures,
            ) == (alpha, children, false, left - polls) by {
                assert(self.watch_from(
                    false,
                    left,
                    depth,
                    first_alpha,
                    beta,
                    sorted_trees(unsorted),
                    0,
                    only_captures,
                ) == self.watch_from(
                    false,
                    left - polls,
                    depth,
                    alpha,
                    beta,
                    children,
                    children.len() as int,
                    only_captures,
                ));
            }
        }
    }

    /// Without children nothing is asked: the score is the evaluation.
    pub proof fn lemma_watch_childless(
        self,
        depth: int,
        alpha: int,
        beta: int,
        children: Seq<Tree>,
        only_captures: bool,
    )
        requires
            children.len() == 0,
        ensures
            self.watched_children(
                0,
                depth,
                alpha,
                beta,
                children,
                only_captures,
                self.evaluation(),
                children,
                false,
            ),
    {
    }

    /// A search that ends at its node asks nothing more.
    pub proof fn lemma_watch_ends(
        self,
        depth: int,
        alpha: int,
        beta: int,
        node: Tree,
        only_captures: bool,
    )
        requires
            search_ends(node.m, depth, only_captures),
        ensures
            self.watched_told(
                0,
                depth,
                alpha,
                beta,
                node,
                only_captures,
                self.evaluation(),
                node,
                false,
            ),
    {
    }

    /// The search of a node is the search of the children that it goes
    /// over, with the node as they leave it.
    pub proof fn lemma_watch_node(
        self,
        polls: int,
        depth: int,
        alpha: int,
        beta: int,
        node: Tree,
        only_captures: bool,
        score: int,
        trees: Seq<Tree>,
        stopped: bool,
    )
        requires
            !search_ends(node.m, depth, only_captures),
            self.watched_children(
                polls,
                depth,
                alpha,
                beta,
                self.to_search(node, only_captures),
                only_captures,
                score,
                trees,
                stopped,
            ),
        ensures
            self.watched_told(
                polls,
                depth,
                alpha,
                beta,
                node,
                only_captures,
                score,
                if !node.visited && only_captures {
                    node
                } else {
                    Tree { visited: true, children: trees, ..node }
                },
                stopped,
            ),
    {
        let tree = if !node.visited && only_captures {
            node
        } else {
            Tree { visited: true, children: trees, ..node }
        };
        if !stopped {
            assert forall|left: int| polls <= left implies #[trigger] self.watch_told(
                false,
                left,
                depth,
                alpha,
                beta,
                node,
                only_captures,
            ) == (score, tree, false, left - polls) by {
                assert(self.watch_children(
                    false,
                    left,
                    depth,
                    alpha,
                    beta,
                    self.to_search(node, only_captures),
                    only_captures,
                ) == (score, trees, false, left - polls));
            }
        }
    }

    /// The search of a node asks once more than the search that follows.
    pub proof fn lemma_watch_asked(
        self,
        polls: int,
        depth: int,
        alpha: int,
        beta: int,
        node: Tree,
        only_captures: bool,
        score: int,
        tree: Tree,
        stopped: bool,
    )
        requires
            0 <= polls,
            self.watched_told(polls, depth, alpha, beta, node, only_captures, score, tree, stopped),
        ensures
            self.watched(polls + 1, depth, alpha, beta, node, only_captures, score, tree, stopped),
    {
        if !stopped {
            assert forall|left: int| polls + 1 <= left implies #[trigger] self.watch(
                false,
                left,
                depth,
                alpha,
                beta,
                node,
                only_captures,
            ) == (score, tree, false, left - (polls + 1)) by {
                assert(self.watch_told(false, left - 1, depth, alpha, beta, node, only_captures)
                    == (score, tree, false, left - 1 - polls));
            }
        }
    }

    /// A search that is told to stop as it begins has asked once, and is the
    /// search over the nodes already generated.
    pub proof fn lemma_watch_told_at_once(
        self,
        depth: int,
        alpha: int,
        beta: int,
        node: Tree,
        only_captures: bool,
    )
        ensures
            self.watched(
                0,
                depth,
                alpha,
                beta,
                node,
                only_captures,
                self.explore_known(depth, alpha, beta, node, only_captures).0,
                self.explore_known(depth, alpha, beta, node, only_captures).1,
                true,
            ),
    {
        self.lemma_watch_stopped(0, depth, alpha, beta, node, only_captures);
    }

    /// A search that is stopped as it begins is the search over the nodes
    /// already generated, whatever the channel holds.
    pub proof fn lemma_watch_stopped(
        self,
        left: int,
        depth: int,
        alpha: int,
        beta: int,
        node: Tree,
        only_captures: bool,
    )
        ensures
            self.watch(true, left, depth, alpha, beta, node, only_captures) == (
                self.explore_known(depth, alpha, beta, node, only_captures).0,
                self.explore_known(depth, alpha, beta, node, only_captures).1,
                true,
                left,
            ),
            self.watch_told(true, left, depth, alpha, beta, node, only_captures) == (
                self.explore_known(depth, alpha, beta, node, only_captures).0,
                self.explore_known(depth, alpha, beta, node, only_captures).1,
                true,
                left,
            ),
        decreases depth + 12, 2int, 0int,
    {
        if !search_ends(node.m, depth, only_captures) {
            self.lemma_watch_children_stopped(
                left,
                depth,
                alpha,
                beta,
                node.children,
                only_captures,
            );
        }
    }

    /// The same for the children of a node.
    pub proof fn lemma_watch_children_stopped(
        self,
        left: int,
        depth: int,
        alpha: int,
        beta: int,
        children: Seq<Tree>,
        only_captures: bool,
    )
        requires
            -10 <= depth,
        ensures
            self.watch_children(true, left, depth, alpha, beta, children, only_captures) == (
                self.explore_children(true, depth, alpha, beta, children, only_captures).0,
                self.explore_children(true, depth, alpha, beta, children, only_captures).1,
                true,
                left,
            ),
        decreases depth + 12, 1int, 0int,
    {
        if children.len() > 0 {
            self.lemma_watch_from_stopped(
                left,
                depth,
                alpha,
                beta,
                sorted_trees(children),
                0,
                only_captures,
            );
        }
    }

    /// The same for the children from the `i`-th on.
    pub proof fn lemma_watch_from_stopped(
        self,
        left: int,
        depth: int,
        alpha: int,
        beta: int,
        children: Seq<Tree>,
        i: int,
        only_captures: bool,
    )
        requires
            -10 <= depth,
        ensures
            self.watch_from(true, left, depth, alpha, beta, children, i, only_captures) == (
                self.explore_from(true, depth, alpha, beta, children, i, only_captures).0,
                self.explore_from(true, depth, alpha, beta, children, i, only_captures).1,
                true,
                left,
            ),
        decreases depth + 12, 0int, children.len() - i,
    {
        if 0 <= i < children.len() {
            if !self.can_make(children[i].m) {
                self.lemma_watch_from_stopped(
                    left,
                    depth,
                    alpha,
                    beta,
                    children,
                    i + 1,
                    only_captures,
                );
            } else {
                let next = self.push(children[i].m);
                next.lemma_watch_stopped(left, depth - 1, -beta, -alpha, children[i], only_captures);
                let answer = next.watch(
                    true,
                    left,
                    depth - 1,
                    -beta,
                    -alpha,
                    children[i],
                    only_captures,
                );
                let score = -answer.0;
                let child = Tree { m: Move { score: score as i16, ..answer.1.m }, ..answer.1 };
                let searched = children.update(i, child);
                if score >= beta {
                } else if score > alpha {
                    self.lemma_watch_from_stopped(
                        left,
                        depth,
                        score,
                        beta,
                        searched,
                        i + 1,
                        only_captures,
                    );
                } else {
                    self.lemma_watch_from_stopped(
                        left,
                        depth,
                        alpha,
                        beta,
                        searched,
                        i + 1,
                        only_captures,
                    );
                }
            }
        }
    }

    /// The search for the best move beside a channel of commands, from the
    /// search of depth `i` on: searches of depth `i` up to `depth - 1`, each
    /// started from the tree that the one before it left, the first of them
    /// told to stop or not as `told` says. Before each later search it is
    /// asked whether a command is waiting. A search that ends stopped ends
    /// the whole search, and what it found is not looked at. The result is
    /// the best move of the last search that was completed, the tree,
    /// whether the search ended stopped, and how often the answer will still
    /// be no.
    pub open spec fn seek(
        self,
        told: bool,
        left: int,
        depth: int,
        i: int,
        tree: Tree,
        best: Option<Move>,
    ) -> (Option<Move>, Tree, bool, int)
        decreases depth - i,
    {
        if i >= depth {
            (best, tree, false, left)
        } else {
            let search = self.watch_told(told, left, i, -i16::MAX, i16::MAX as int, tree, false);
            if search.2 {
                (best, search.1, true, search.3)
            } else {
                let found = best_child(search.1.children, 0, None, -i16::MAX);
                if i + 1 < depth {
                    let (next, rest) = asked(false, search.3);
                    self.seek(next, rest, depth, i + 1, search.1, found)
                } else {
                    (found, search.1, false, search.3)
                }
            }
        }
    }

    /// Whether a search for the best move with searches up to `depth - 1`,
    /// told to stop or not as it began, may have found `found`, left the
    /// tree `tree` and ended stopped or not, having asked `polls` times for
    /// a command without being told of one.
    pub open spec fn sought(
        self,
        told: bool,
        polls: int,
        depth: int,
        first: Tree,
        found: Option<Move>,
        tree: Tree,
        stopped: bool,
    ) -> bool {
        if stopped {
            self.seek(told, polls, depth, 1, first, None) == (found, tree, true, 0int)
        } else {
            forall|left: int|
                polls <= left ==> #[trigger] self.seek(told, left, depth, 1, first, None) == (
                    found,
                    tree,
                    false,
                    left - polls,
                )
        }
    }

    /// The search for the best move that asks whether a command is waiting
    /// before its first search, if there is a search to make.
    pub open spec fn seek_asking(self, left: int, depth: int, first: Tree) -> (
        Option<Move>,
        Tree,
        bool,
        int,
    ) {
        if depth > 1 {
            let (told, rest) = asked(false, left);
            self.seek(told, rest, depth, 1, first, None)
        } else {
            self.seek(false, left, depth, 1, first, None)
        }
    }

    /// The same as `sought`, for a search that asks before its first search.
    pub open spec fn sought_asking(
        self,
        polls: int,
        depth: int,
        first: Tree,
        found: Option<Move>,
        tree: Tree,
        stopped: bool,
    ) -> bool {
        if stopped {
            self.seek_asking(polls, depth, first) == (found, tree, true, 0int)
        } else {
            forall|left: int|
                polls <= left ==> #[trigger] self.seek_asking(left, depth, first) == (
                    found,
                    tree,
                    false,
                    left - polls,
                )
        }
    }

    /// How far the search for the best move has come: the whole search is
    /// the search from depth `i` on with the tree `tree` and the best move
    /// `best`, after `polls` answers of no, the next search told to stop or
    /// not.
    pub closed spec fn seek_reached(
        self,
        told_first: bool,
        told: bool,
        polls: int,
        depth: int,
        first: Tree,
        i: int,
        tree: Tree,
        best: Option<Move>,
    ) -> bool {
        if told {
            self.seek(told_first, polls, depth, 1, first, None) == self.seek(
                true,
                0,
                depth,
                i,
                tree,
                best,
            )
        } else {
            forall|left: int|
                polls <= left ==> #[trigger] self.seek(told_first, left, depth, 1, first, None)
                    == self.seek(false, left - polls, depth, i, tree, best)
        }
    }

    /// Before the first search nothing was asked.
    pub proof fn lemma_seek_start(self, told: bool, depth: int, first: Tree)
        ensures
            self.seek_reached(told, told, 0, depth, first, 1, first, None),
    {
    }

    /// With no search to make, no move is found and the tree stays.
    pub proof fn lemma_seek_none(self, told: bool, depth: int, first: Tree)
        requires
            depth <= 1,
        ensures
            self.sought(told, 0, depth, first, None, first, false),
    {
    }

    /// A search that ends stopped ends the search for the best move, with
    /// the best move of the search before it.
    pub proof fn lemma_seek_stopped(
        self,
        told_first: bool,
        told: bool,
        polls: int,
        search_polls: int,
        depth: int,
        first: Tree,
        i: int,
        tree: Tree,
        best: Option<Move>,
        score: int,
        searched: Tree,
    )
        requires
            1 <= i < depth,
            0 <= polls,
            0 <= search_polls,
            self.seek_reached(told_first, told, polls, depth, first, i, tree, best),
            told ==> (score, searched) == self.explore_known(
                i,
                -i16::MAX,
                i16::MAX as int,
                tree,
                false,
            ),
            !told ==> self.watched_told(
                search_polls,
                i,
                -i16::MAX,
                i16::MAX as int,
                tree,
                false,
                score,
                searched,
                true,
            ),
        ensures
            self.sought(
                told_first,
                if told {
                    polls
                } else {
                    polls + search_polls
                },
                depth,
                first,
                best,
                searched,
                true,
            ),
    {
        if told {
            self.lemma_watch_stopped(0, i, -i16::MAX, i16::MAX as int, tree, false);
        } else {
            assert(self.seek(told_first, polls + search_polls, depth, 1, first, None) == self.seek(
                false,
                search_polls,
                depth,
                i,
                tree,
                best,
            ));
        }
    }

    /// A search that was completed, with searches still to make: the search
    /// for the best move goes on with the next depth, told to stop or not
    /// as the channel answers.
    pub proof fn lemma_seek_searched(
        self,
        told_first: bool,
        polls: int,
        search_polls: int,
        depth: int,
        first: Tree,
        i: int,
        tree: Tree,
        best: Option<Move>,
        score: int,
        searched: Tree,
        told_next: bool,
    )
        requires
            1 <= i < depth,
            0 <= polls,
            0 <= search_polls,
            i + 1 < depth || !told_next,
            self.seek_reached(told_first, false, polls, depth, first, i, tree, best),
            self.watched_told(
                search_polls,
                i,
                -i16::MAX,
                i16::MAX as int,
                tree,
                false,
                score,
                searched,
                false,
            ),
        ensures
            self.seek_reached(
                told_first,
                told_next,
                if i + 1 < depth && !told_next {
                    polls + search_polls + 1
                } else {
                    polls + search_polls
                },
                depth,
                first,
                i + 1,
                searched,
                best_child(searched.children, 0, None, -i16::MAX),
            ),
    {
        let found = best_child(searched.children, 0, None, -i16::MAX);
        if told_next {
            assert(self.seek(told_first, polls + search_polls, depth, 1, first, None) == self.seek(
                false,
                search_polls,
                depth,
                i,
                tree,
                best,
            ));
            assert(self.watch_told(
                false,
                search_polls,
                i,
                -i16::MAX,
                i16::MAX as int,
                tree,
                false,
            ) == (score, searched, false, 0int));
        } else {
            let used = if i + 1 < depth {
                polls + search_polls + 1
            } else {
                polls + search_polls
            };
            assert forall|left: int| used <= left implies #[trigger] self.seek(
                told_first,
                left,
                depth,
                1,
                first,
                None,
            ) == self.seek(false, left - used, depth, i + 1, searched, found) by {
                assert(self.watch_told(
                    false,
                    left - polls,
                    i,
                    -i16::MAX,
                    i16::MAX as int,
                    tree,
                    false,
                ) == (score, searched, false, left - polls - search_polls));
            }
        }
    }

    /// When the last search was made, the search for the best move is over.
    pub proof fn lemma_seek_over(
        self,
        told_first: bool,
        polls: int,
        depth: int,
        first: Tree,
        i: int,
        tree: Tree,
        best: Option<Move>,
    )
        requires
            depth <= i,
            self.seek_reached(told_first, false, polls, depth, first, i, tree, best),
        ensures
            self.sought(told_first, polls, depth, first, best, tree, false),
    {
        assert forall|left: int| polls <= left implies #[trigger] self.seek(
            told_first,
            left,
            depth,
            1,
            first,
            None,
        ) == (best, tree, false, left - polls) by {
            assert(self.seek(false, left - polls, depth, i, tree, best) == (
                best,
                tree,
                false,
                left - polls,
            ));
        }
    }

    /// The search that asks before its first search and is told to stop at
    /// once finds no move, and leaves the tree as the stopped search of
    /// depth one leaves it.
    pub proof fn lemma_seek_told_at_once(self, depth: int, first: Tree)
        requires
            depth > 1,
        ensures
            self.sought_asking(
                0,
                depth,
                first,
                None,
                self.explore_known(1, -i16::MAX, i16::MAX as int, first, false).1,
                true,
            ),
    {
        self.lemma_watch_stopped(0, 1, -i16::MAX, i16::MAX as int, first, false);
    }

    /// The search that asks before its first search and is not told to stop
    /// has asked once more, unless it had no search to make.
    pub proof fn lemma_seek_asked(
        self,
        polls: int,
        depth: int,
        first: Tree,
        found: Option<Move>,
        tree: Tree,
        stopped: bool,
    )
        requires
            0 <= polls,
            self.sought(false, polls, depth, first, found, tree, stopped),
        ensures
            self.sought_asking(
                if depth > 1 {
                    polls + 1
                } else {
                    polls
                },
                depth,
                first,
                found,
                tree,
                stopped,
            ),
    {
        if !stopped {
            let used = if depth > 1 {
                polls + 1
            } else {
                polls
            };
            assert forall|left: int| used <= left implies #[trigger] self.seek_asking(
                left,
                depth,
                first,
            ) == (found, tree, false, left - used) by {
                if depth > 1 {
                    assert(self.seek(false, left - 1, depth, 1, first, None) == (
                        found,
                        tree,
                        false,
                        left - 1 - polls,
                    ));
                } else {
                    assert(self.seek(false, left, depth, 1, first, None) == (
                        found,
                        tree,
                        false,
                        left - polls,
                    ));
                }
            }
        }
    }

    /// A search that ends unstopped has found what the search that runs to
    /// its end finds, however often the channel would still have answered
    /// no.
    pub proof fn lemma_watch_unstopped(
        self,
        left: int,
        depth: int,
        alpha: int,
        beta: int,
        node: Tree,
        only_captures: bool,
    )
        ensures
            !self.watch(false, left, depth, alpha, beta, node, only_captures).2 ==> {
                &&& self.watch(false, left, depth, alpha, beta, node, only_captures).0
                    == self.explore(depth, alpha, beta, node, only_captures).0
                &&& self.watch(false, left, depth, alpha, beta, node, only_captures).1
                    == self.explore(depth, alpha, beta, node, only_captures).1
            },
        decreases depth + 12, 2int, 0int,
    {
        if left <= 0 {
            self.lemma_watch_stopped(0, depth, alpha, beta, node, only_captures);
        } else {
            self.lemma_watch_told_unstopped(left - 1, depth, alpha, beta, node, only_captures);
        }
    }

    /// The same for a search that has asked for a command already.
    pub proof fn lemma_watch_told_unstopped(
        self,
        left: int,
        depth: int,
        alpha: int,
        beta: int,
        node: Tree,
        only_captures: bool,
    )
        ensures
            !self.watch_told(false, left, depth, alpha, beta, node, only_captures).2 ==> {
                &&& self.watch_told(false, left, depth, alpha, beta, node, only_captures).0
                    == self.explore(depth, alpha, beta, node, only_captures).0
                &&& self.watch_told(false, left, depth, alpha, beta, node, only_captures).1
                    == self.explore(depth, alpha, beta, node, only_captures).1
            },
        decreases depth + 12, 1int, 1int,
    {
        if !search_ends(node.m, depth, only_captures) {
            self.lemma_watch_children_unstopped(
                left,
                depth,
                alpha,
                beta,
                self.to_search(node, only_captures),
                only_captures,
            );
        }
    }

    /// The same for the children of a node.
    pub proof fn lemma_watch_children_unstopped(
        self,
        left: int,
        depth: int,
        alpha: int,
        beta: int,
        children: Seq<Tree>,
        only_captures: bool,
    )
        requires
            -10 <= depth,
        ensures
            !self.watch_children(false, left, depth, alpha, beta, children, only_captures).2 ==> {
                &&& self.watch_children(false, left, depth, alpha, beta, children, only_captures).0
                    == self.explore_children(false, depth, alpha, beta, children, only_captures).0
                &&& self.watch_children(false, left, depth, alpha, beta, children, only_captures).1
                    == self.explore_children(false, depth, alpha, beta, children, only_captures).1
            },
        decreases depth + 12, 1int, 0int,
    {
        if children.len() > 0 {
            self.lemma_watch_from_unstopped(
                left,
                depth,
                alpha,
                beta,
                sorted_trees(children),
                0,
                only_captures,
            );
        }
    }

    /// The same for the children from the `i`-th on.
    pub proof fn lemma_watch_from_unstopped(
        self,
        left: int,
        depth: int,
        alpha: int,
        beta: int,
        children: Seq<Tree>,
        i: int,
        only_captures: bool,
    )
        requires
            -10 <= depth,
        ensures
            !self.watch_from(false, left, depth, alpha, beta, children, i, only_captures).2 ==> {
                &&& self.watch_from(false, left, depth, alpha, beta, children, i, only_captures).0
                    == self.explore_from(false, depth, alpha, beta, children, i, only_captures).0
                &&& self.watch_from(false, left, depth, alpha, beta, children, i, only_captures).1
                    == self.explore_from(false, depth, alpha, beta, children, i, only_captures).1
            },
        decreases depth + 12, 0int, children.len() - i,
    {
        if 0 <= i < children.len() {
            if !self.can_make(children[i].m) {
                self.lemma_watch_from_unstopped(
                    left,
                    depth,
                    alpha,
                    beta,
                    children,
                    i + 1,
                    only_captures,
                );
            } else {
                let next = self.push(children[i].m);
                next.lemma_watch_unstopped(left, depth - 1, -beta, -alpha, children[i], only_captures);
                let answer = next.watch(
                    false,
                    left,
                    depth - 1,
                    -beta,
                    -alpha,
                    children[i],
                    only_captures,
                );
                let score = -answer.0;
                let child = Tree { m: Move { score: score as i16, ..answer.1.m }, ..answer.1 };
                let searched = children.update(i, child);
                let next_alpha = if score > alpha {
                    score
                } else {
                    alpha
                };
                if score < beta {
                    if answer.2 {
                        self.lemma_watch_from_stopped(
                            answer.3,
                            depth,
                            next_alpha,
                            beta,
                            searched,
                            i + 1,
                            only_captures,
                        );
                    } else {
                        self.lemma_watch_from_unstopped(
                            answer.3,
                            depth,
                            next_alpha,
                            beta,
                            searched,
                            i + 1,
                            only_captures,
                        );
                    }
                }
            }
        }
    }
}

} // verus!
