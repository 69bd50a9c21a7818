//! What the search over the tree of moves computes: the static evaluation of
//! a board, the order in which the moves of a node are tried, and the score
//! and the tree that a search of a node leaves.

use crate::board::{Action, Move, MoveNode};
use crate::candidates::appended;
use crate::layout::{lemma_value_below_potential, value_upto, Layout};
use crate::piece::{Color, Type};
use vstd::prelude::*;

verus! {

/// A node of the search tree as a value: its move, the nodes of the moves
/// that answer it, and whether those were generated already.
pub struct Tree {
    pub m: Move,
    pub children: Seq<Tree>,
    pub visited: bool,
}

impl MoveNode {
    /// The node as a value.
    pub open spec fn tree(self) -> Tree
        decreases self,
    {
        Tree {
            m: self.m,
            children: MoveNode::trees(self.children@, self.children@.len() as int),
            visited: self.visited,
        }
    }

    /// The first `k` nodes of a sequence as values.
    pub open spec fn trees(nodes: Seq<MoveNode>, k: int) -> Seq<Tree>
        decreases nodes, k,
    {
        if k <= 0 || k > nodes.len() {
            Seq::empty()
        } else {
            MoveNode::trees(nodes, k - 1).push(nodes[k - 1].tree())
        }
    }

    /// The values of the first `k` nodes are the values of each of them, in
    /// their order.
    pub proof fn lemma_trees(nodes: Seq<MoveNode>, k: int)
        requires
            0 <= k <= nodes.len(),
        ensures
            MoveNode::trees(nodes, k).len() == k,
            forall|i: int| 0 <= i < k ==> (#[trigger] MoveNode::trees(nodes, k)[i]) == nodes[i].tree(),
        decreases k,
    {
        if k > 0 {
            MoveNode::lemma_trees(nodes, k - 1);
        }
    }
}

/// The nodes of a sequence as values.
pub open spec fn forest(nodes: Seq<MoveNode>) -> Seq<Tree> {
    MoveNode::trees(nodes, nodes.len() as int)
}

/// The values of the nodes of a sequence, one by one.
pub proof fn lemma_forest(nodes: Seq<MoveNode>)
    ensures
        forest(nodes).len() == nodes.len(),
        forall|i: int| 0 <= i < nodes.len() ==> (#[trigger] forest(nodes)[i]) == nodes[i].tree(),
{
    MoveNode::lemma_trees(nodes, nodes.len() as int);
}

/// A fresh node for a move: not visited, without children.
pub open spec fn fresh_tree(m: Move) -> Tree {
    Tree { m, children: Seq::empty(), visited: false }
}

/// Fresh nodes for a sequence of moves.
pub open spec fn fresh_trees(moves: Seq<Move>) -> Seq<Tree> {
    Seq::new(moves.len(), |i: int| fresh_tree(moves[i]))
}

/// Nodes appended fresh for a sequence of moves are the fresh nodes of those
/// moves.
pub proof fn lemma_fresh_forest(nodes: Seq<MoveNode>, moves: Seq<Move>)
    requires
        appended(Seq::empty(), nodes, moves),
    ensures
        forest(nodes) == fresh_trees(moves),
{
    lemma_forest(nodes);
    assert forall|i: int| 0 <= i < nodes.len() implies (#[trigger] forest(nodes)[i])
        == fresh_trees(moves)[i] by {
        assert(crate::candidates::fresh(nodes[0 + i], moves[i]));
        lemma_forest(nodes[i].children@);
        assert(forest(nodes[i].children@) =~= Seq::<Tree>::empty());
    }
    assert(forest(nodes) =~= fresh_trees(moves));
}

/// The tree a search starts from: that of the last search, or a fresh one.
pub open spec fn root_tree(root: Option<MoveNode>) -> Tree {
    match root {
        Some(node) => node.tree(),
        None => fresh_tree(Move { score: 0, action: Action::NoAction }),
    }
}

/// The first node from the `i`-th on that holds the move.
pub open spec fn child_for(children: Seq<Tree>, m: Move, i: int) -> Option<Tree>
    decreases children.len() - i,
{
    if i < 0 || i >= children.len() {
        None
    } else if children[i].m == m {
        Some(children[i])
    } else {
        child_for(children, m, i + 1)
    }
}

/// The tree with which the search goes on once a move is played: the node of
/// that move among the children of the root, or a fresh tree.
pub open spec fn next_root(root: Option<MoveNode>, m: Move) -> Tree {
    match root {
        Some(node) => match child_for(node.tree().children, m, 0) {
            Some(child) => child,
            None => fresh_tree(Move { score: 0, action: Action::NoAction }),
        },
        None => fresh_tree(Move { score: 0, action: Action::NoAction }),
    }
}

/// If none of the nodes from `i` up to `j` holds the move, the first that
/// holds it is the first from `j` on.
pub proof fn lemma_child_for(children: Seq<Tree>, m: Move, i: int, j: int)
    requires
        0 <= i <= j <= children.len(),
        forall|k: int| i <= k < j ==> (#[trigger] children[k]).m != m,
    ensures
        child_for(children, m, i) == child_for(children, m, j),
    decreases j - i,
{
    if i < j {
        lemma_child_for(children, m, i + 1, j);
    }
}

/// The key by which the moves of a node are ordered: the cheap estimate of
/// the move, as far as it has one, and the score the last search gave it.
pub open spec fn sort_key(m: Move) -> int {
    (if m.valued() {
        m.spec_value()
    } else {
        0
    }) + m.score
}

/// A sequence of nodes ordered by falling key, with one more put in: behind
/// every node whose key is at least its own.
pub open spec fn insert_tree(sorted: Seq<Tree>, t: Tree) -> Seq<Tree>
    decreases sorted.len(),
{
    if sorted.len() > 0 && sort_key(sorted.last().m) < sort_key(t.m) {
        insert_tree(sorted.drop_last(), t).push(sorted.last())
    } else {
        sorted.push(t)
    }
}

/// The nodes ordered by falling key; nodes of equal key keep their order.
pub open spec fn sorted_trees(nodes: Seq<Tree>) -> Seq<Tree>
    decreases nodes.len(),
{
    if nodes.len() == 0 {
        nodes
    } else {
        insert_tree(sorted_trees(nodes.drop_last()), nodes.last())
    }
}

/// Whether the keys of a sequence of nodes fall: none has a greater key than
/// a node before it.
pub open spec fn falling_trees(nodes: Seq<Tree>) -> bool {
    forall|i: int, j: int|
        0 <= i < j < nodes.len() ==> sort_key(#[trigger] nodes[i].m) >= sort_key(
            #[trigger] nodes[j].m,
        )
}

/// The nodes of a sequence that have the key `key`, in their order.
pub open spec fn trees_of_key(nodes: Seq<Tree>, key: int) -> Seq<Tree>
    decreases nodes.len(),
{
    if nodes.len() == 0 {
        nodes
    } else if sort_key(nodes.last().m) == key {
        trees_of_key(nodes.drop_last(), key).push(nodes.last())
    } else {
        trees_of_key(nodes.drop_last(), key)
    }
}

/// Putting a node into a sequence adds it to the nodes the sequence holds.
pub proof fn lemma_insert_tree_members(sorted: Seq<Tree>, t: Tree)
    ensures
        insert_tree(sorted, t).len() == sorted.len() + 1,
        insert_tree(sorted, t).to_multiset() == sorted.to_multiset().insert(t),
    decreases sorted.len(),
{
    broadcast use vstd::seq_lib::group_to_multiset_ensures;

    if sorted.len() > 0 && sort_key(sorted.last().m) < sort_key(t.m) {
        lemma_insert_tree_members(sorted.drop_last(), t);
        assert(sorted.drop_last().push(sorted.last()) =~= sorted);
        assert(insert_tree(sorted, t).to_multiset() =~= sorted.to_multiset().insert(t));
    }
}

/// Ordering nodes only rearranges them: the ordered sequence holds each node
/// as often as the sequence it was made from.
pub proof fn lemma_sorted_trees_members(nodes: Seq<Tree>)
    ensures
        sorted_trees(nodes).len() == nodes.len(),
        sorted_trees(nodes).to_multiset() == nodes.to_multiset(),
        forall|i: int| 0 <= i < nodes.len() ==> nodes.contains(#[trigger] sorted_trees(nodes)[i]),
    decreases nodes.len(),
{
    broadcast use vstd::seq_lib::group_to_multiset_ensures;

    if nodes.len() > 0 {
        lemma_sorted_trees_members(nodes.drop_last());
        lemma_insert_tree_members(sorted_trees(nodes.drop_last()), nodes.last());
        assert(nodes.drop_last().push(nodes.last()) =~= nodes);
    }
    let sorted = sorted_trees(nodes);
    assert forall|i: int| 0 <= i < nodes.len() implies nodes.contains(#[trigger] sorted[i]) by {
        assert(sorted.to_multiset().count(sorted[i]) > 0);
        assert(nodes.to_multiset().count(sorted[i]) > 0);
    }
}

/// Putting a node into a sequence of falling keys leaves one.
pub proof fn lemma_insert_tree_falls(sorted: Seq<Tree>, t: Tree)
    requires
        falling_trees(sorted),
    ensures
        falling_trees(insert_tree(sorted, t)),
        forall|i: int|
            0 <= i < insert_tree(sorted, t).len() ==> insert_tree(sorted, t)[i] == t
                || sorted.contains(#[trigger] insert_tree(sorted, t)[i]),
    decreases sorted.len(),
{
    let r = insert_tree(sorted, t);
    if sorted.len() > 0 && sort_key(sorted.last().m) < sort_key(t.m) {
        let front = sorted.drop_last();
        lemma_insert_tree_falls(front, t);
        let inner = insert_tree(front, t);
        assert forall|i: int| 0 <= i < r.len() implies r[i] == t || sorted.contains(
            #[trigger] r[i],
        ) by {
            if i < inner.len() {
                if inner[i] != t {
                    assert(front.contains(inner[i]));
                    let k = choose|k: int| 0 <= k < front.len() && front[k] == inner[i];
                    assert(sorted[k] == inner[i]);
                }
            } else {
                assert(r[i] == sorted[sorted.len() - 1]);
            }
        }
        assert forall|i: int, j: int| 0 <= i < j < r.len() implies sort_key(#[trigger] r[i].m)
            >= sort_key(#[trigger] r[j].m) by {
            if j == r.len() - 1 {
                if inner[i] != t {
                    assert(front.contains(inner[i]));
                    let k = choose|k: int| 0 <= k < front.len() && front[k] == inner[i];
                    assert(sort_key(sorted[k].m) >= sort_key(sorted[sorted.len() - 1].m));
                }
            } else {
                assert(r[i] == inner[i] && r[j] == inner[j]);
            }
        }
    } else {
        assert forall|i: int| 0 <= i < r.len() implies r[i] == t || sorted.contains(
            #[trigger] r[i],
        ) by {
            if i < sorted.len() {
                assert(sorted[i] == r[i]);
            }
        }
        assert forall|i: int, j: int| 0 <= i < j < r.len() implies sort_key(#[trigger] r[i].m)
            >= sort_key(#[trigger] r[j].m) by {
            if j == r.len() - 1 {
                assert(sort_key(sorted[i].m) >= sort_key(sorted[sorted.len() - 1].m));
            } else {
                assert(r[i] == sorted[i] && r[j] == sorted[j]);
            }
        }
    }
}

/// The ordered nodes have falling keys.
pub proof fn lemma_sorted_trees_fall(nodes: Seq<Tree>)
    ensures
        falling_trees(sorted_trees(nodes)),
    decreases nodes.len(),
{
    if nodes.len() > 0 {
        lemma_sorted_trees_fall(nodes.drop_last());
        lemma_insert_tree_falls(sorted_trees(nodes.drop_last()), nodes.last());
    }
}

/// A node that is put into a sequence comes behind the nodes of its key.
pub proof fn lemma_insert_tree_stable(sorted: Seq<Tree>, t: Tree, key: int)
    ensures
        trees_of_key(insert_tree(sorted, t), key) == if sort_key(t.m) == key {
            trees_of_key(sorted, key).push(t)
        } else {
            trees_of_key(sorted, key)
        },
    decreases sorted.len(),
{
    if sorted.len() > 0 && sort_key(sorted.last().m) < sort_key(t.m) {
        let inner = insert_tree(sorted.drop_last(), t);
        lemma_insert_tree_stable(sorted.drop_last(), t, key);
        assert(inner.push(sorted.last()).drop_last() =~= inner);
    } else {
        assert(sorted.push(t).drop_last() =~= sorted);
    }
}

/// The order is stable: nodes of equal key stand in the ordered sequence in
/// the order in which they stood before.
pub proof fn lemma_sorted_trees_stable(nodes: Seq<Tree>, key: int)
    ensures
        trees_of_key(sorted_trees(nodes), key) == trees_of_key(nodes, key),
    decreases nodes.len(),
{
    if nodes.len() > 0 {
        lemma_sorted_trees_stable(nodes.drop_last(), key);
        lemma_insert_tree_stable(sorted_trees(nodes.drop_last()), nodes.last(), key);
    }
}

/// Whether a move took a king.
pub open spec fn king_captured(m: Move) -> bool {
    match m.action {
        Action::Capture { piece, target } => target.t == Type::King,
        Action::CaptureAndPromote { old_piece, target, new_piece } => target.t == Type::King,
        _ => false,
    }
}

/// Whether the search of a node ends at the node itself: its move took a
/// king, or no depth is left.
pub open spec fn search_ends(m: Move, depth: int, only_captures: bool) -> bool {
    king_captured(m) || depth < -10 || (depth <= 0 && !only_captures)
}

/// The best of the children of a node: the first whose score no other
/// child's exceeds, if any child's score is above the lowest there is.
pub open spec fn best_child(children: Seq<Tree>, i: int, best: Option<Move>, score: int) -> Option<
    Move,
>
    decreases children.len() - i,
{
    if i < 0 || i >= children.len() {
        best
    } else if children[i].m.score > score {
        best_child(children, i + 1, Some(children[i].m), children[i].m.score as int)
    } else {
        best_child(children, i + 1, best, score)
    }
}

impl Layout {
    /// The static evaluation from the point of view of the side to move: the
    /// values of its pieces minus those of the other side's.
    pub open spec fn evaluation(self) -> int {
        match self.turn() {
            Color::White => value_upto(self.white, 16) - value_upto(self.black, 16),
            Color::Black => value_upto(self.black, 16) - value_upto(self.white, 16),
        }
    }

    /// Two boards that hold the same pieces and differ in the side to move
    /// have evaluations that are negations of each other.
    pub proof fn lemma_evaluation_sign(self, other: Layout)
        requires
            self.white == other.white,
            self.black == other.black,
            self.turn() != other.turn(),
        ensures
            self.evaluation() == -other.evaluation(),
    {
    }

    /// On a sound board the evaluation fits in sixteen bits, and so does its
    /// negation.
    pub proof fn lemma_evaluation_bound(self)
        requires
            self.sound(),
        ensures
            -i16::MAX <= self.evaluation() <= i16::MAX,
            0 <= value_upto(self.white, 16) <= i16::MAX,
            0 <= value_upto(self.black, 16) <= i16::MAX,
    {
        assert forall|i: int| 0 <= i < 16 implies (#[trigger] self.white[i] matches Some(p)
            ==> p.position.on_board()) by {
            assert(self.slot_ok(Color::White, i));
        }
        assert forall|i: int| 0 <= i < 16 implies (#[trigger] self.black[i] matches Some(p)
            ==> p.position.on_board()) by {
            assert(self.slot_ok(Color::Black, i));
        }
        lemma_value_below_potential(self.white, 16);
        lemma_value_below_potential(self.black, 16);
    }

    /// The nodes that the search of a node goes over: its children, or, when
    /// the node is visited for the first time, fresh nodes for the moves of
    /// the side to move.
    pub open spec fn to_search(self, node: Tree, only_captures: bool) -> Seq<Tree> {
        if node.visited {
            node.children
        } else {
            fresh_trees(self.all_moves(self.turn(), only_captures, false))
        }
    }

    /// Whether the search of a node finds no move to make: there is no node
    /// to go over, or none whose move can be made on the board.
    pub open spec fn no_move(self, nodes: Seq<Tree>) -> bool {
        forall|k: int| 0 <= k < nodes.len() ==> !self.can_make(#[trigger] nodes[k].m)
    }

    /// The result of the search of a node: its score, and the node as the
    /// search leaves it. A node whose move took a king is not searched
    /// further, and at depth nothing the score is the static evaluation.
    /// Where only captures are asked for, the search ends ten plies below
    /// depth nothing. The children of a node are generated when it is first
    /// visited, and kept unless only captures were asked for. A search that
    /// was told to stop (`known`) generates nothing: it goes over the nodes
    /// it knows, and a node not yet visited counts as one without children.
    pub open spec fn explore_as(
        self,
        known: bool,
        depth: int,
        alpha: int,
        beta: int,
        node: Tree,
        only_captures: bool,
    ) -> (int, Tree)
        decreases depth + 12, 2int, 0int,
    {
        if king_captured(node.m) {
            (self.evaluation(), node)
        } else if depth < -10 || (depth <= 0 && !only_captures) {
            (self.evaluation(), node)
        } else if !node.visited && !known {
            let fresh = fresh_trees(self.all_moves(self.turn(), only_captures, false));
            let found = self.explore_children(known, depth, alpha, beta, fresh, only_captures);
            if only_captures {
                (found.0, node)
            } else {
                (found.0, Tree { visited: true, children: found.1, ..node })
            }
        } else {
            let found = self.explore_children(
                known,
                depth,
                alpha,
                beta,
                node.children,
                only_captures,
            );
            (found.0, Tree { children: found.1, ..node })
        }
    }

    /// The result of a search that runs to its end.
    pub open spec fn explore(
        self,
        depth: int,
        alpha: int,
        beta: int,
        node: Tree,
        only_captures: bool,
    ) -> (int, Tree) {
        self.explore_as(false, depth, alpha, beta, node, only_captures)
    }

    /// The result of a search that was told to stop before it began: the
    /// search over the nodes already generated.
    pub open spec fn explore_known(
        self,
        depth: int,
        alpha: int,
        beta: int,
        node: Tree,
        only_captures: bool,
    ) -> (int, Tree) {
        self.explore_as(true, depth, alpha, beta, node, only_captures)
    }

    /// The result of the search of the children of a node: the score, and
    /// the children as the search leaves them. Without children the score is
    /// the static evaluation; else the children are ordered and searched one
    /// by one.
    pub open spec fn explore_children(
        self,
        known: bool,
        depth: int,
        alpha: int,
        beta: int,
        children: Seq<Tree>,
        only_captures: bool,
    ) -> (int, Seq<Tree>)
        decreases depth + 12, 1int, 0int,
    {
        if children.len() == 0 {
            (self.evaluation(), children)
        } else {
            self.explore_from(known, depth, alpha, beta, sorted_trees(children), 0, only_captures)
        }
    }

    /// The search of the children of a node from the `i`-th on, with the
    /// best score so far in `alpha`. Each move is played, answered by a
    /// search of one ply less under the negated and swapped window, and
    /// taken back; the child keeps the negated score of the answer. A score
    /// that reaches `beta` ends the search with `beta`; one that beats
    /// `alpha` replaces it. A child whose move cannot be made on the board
    /// is passed over.
    pub open spec fn explore_from(
        self,
        known: bool,
        depth: int,
        alpha: int,
        beta: int,
        children: Seq<Tree>,
        i: int,
        only_captures: bool,
    ) -> (int, Seq<Tree>)
        decreases depth + 12, 0int, children.len() - i,
    {
        if depth < -10 || i < 0 || i >= children.len() {
            (alpha, children)
        } else if !self.can_make(children[i].m) {
            self.explore_from(known, depth, alpha, beta, children, i + 1, only_captures)
        } else {
            let answer = self.push(children[i].m).explore_as(
                known,
                depth - 1,
                -beta,
                -alpha,
                children[i],
                only_captures,
            );
            let score = -answer.0;
            let child = Tree { m: Move { score: score as i16, ..answer.1.m }, ..answer.1 };
            let searched = children.update(i, child);
            if score >= beta {
                (beta, searched)
            } else if score > alpha {
                self.explore_from(known, depth, score, beta, searched, i + 1, only_captures)
            } else {
                self.explore_from(known, depth, alpha, beta, searched, i + 1, only_captures)
            }
        }
    }

    /// The tree after searches of depth one up to `k`, each started from
    /// the tree the one before it left.
    pub open spec fn deepen(self, root: Tree, k: int) -> Tree
        decreases k,
    {
        if k <= 0 {
            root
        } else {
            self.explore(k, -i16::MAX, i16::MAX as int, self.deepen(root, k - 1), false).1
        }
    }

    /// The move found after searches of depth one up to `k`: none before the
    /// first search, else the best child of the tree's root.
    pub open spec fn found(self, root: Tree, k: int) -> Option<Move> {
        if k <= 0 {
            None
        } else {
            best_child(self.deepen(root, k).children, 0, None, -i16::MAX)
        }
    }
}
} // verus!
