//! The board that keeps its pieces by value: every cell holds a copy of the
//! piece standing on it, and every move holds copies of the pieces it moves.

use crate::candidates::{appended, lemma_appended_twice, walk_dx, walk_dy};
use crate::explore::{
    best_child, forest, fresh_tree, insert_tree, lemma_child_for, lemma_forest,
    lemma_fresh_forest, lemma_sorted_trees_members, next_root, root_tree, search_ends, sort_key,
    sorted_trees, Tree,
};
use crate::layout::{
    back_rank, cell_index, first_fitting, hash_upto, inside, jump_dx, jump_dy,
    lemma_value_below_potential, potential, potential_upto, square, value_upto, Layout, Rights,
};
use std::sync::mpsc::Receiver;
use crate::piece::{Color, Piece, Type};
use crate::utils::Position;
use vstd::prelude::*;

verus! {

#[derive(Copy, Clone, Debug, PartialEq, Eq, Structural)]
pub struct Move {
    pub score: i16,
    pub action: Action,
}

/// A node of the search tree: a move, and the moves that answer it once the
/// search has visited the node.
#[derive(Debug)]
pub struct MoveNode {
    pub m: Move,
    pub children: Vec<MoveNode>,
    /// Whether the children were generated already.
    pub visited: bool,
}

#[derive(Copy, Clone, Debug, PartialEq, Eq, Structural)]
pub enum Action {
    Move { from: Piece, to: Piece },
    Capture { piece: Piece, target: Piece },
    Promote { old_piece: Piece, new_piece: Piece },
    /// The pawn `old_piece` takes `target` and stands on its square as
    /// `new_piece`.
    CaptureAndPromote { old_piece: Piece, target: Piece, new_piece: Piece },
    CastleKingSide,
    CastleQueenSide,
    NoAction,
}

#[derive(Copy, Clone)]
pub struct Cell {
    pub piece: Option<Piece>,
    pub attacking_white_pieces: i8,
    pub attacking_black_pieces: i8,
}

/// What is asked of a search that runs beside the game.
#[derive(Debug)]
pub enum Command {
    Stop,
    MakeMove(Move),
    Undo,
    Compute,
}

/// What such a search answers.
#[derive(Debug)]
pub enum Response {
    Ack,
    FoundMove(Move),
    NoValidMove,
}

impl Cell {
    pub open spec fn spec_empty() -> Cell {
        Cell { piece: None, attacking_white_pieces: 0, attacking_black_pieces: 0 }
    }

    #[verifier::when_used_as_spec(spec_empty)]
    pub fn empty() -> (r: Cell)
        ensures
            r == Cell::spec_empty(),
    {
        Cell { piece: None, attacking_white_pieces: 0, attacking_black_pieces: 0 }
    }
}

impl MoveNode {
    /// The number of nodes below this one.
    pub open spec fn size(self) -> nat
        decreases self,
    {
        self.children@.len() + MoveNode::size_upto(self.children@, self.children@.len() as int)
    }

    /// The number of nodes below the first `k` of a sequence of nodes.
    pub open spec fn size_upto(nodes: Seq<MoveNode>, k: int) -> nat
        decreases nodes, k,
    {
        if k <= 0 || k > nodes.len() {
            0
        } else {
            MoveNode::size_upto(nodes, k - 1) + nodes[k - 1].size()
        }
    }

    /// A fresh node for a move: not visited, without children.
    pub fn new(m: Move) -> (r: MoveNode)
        ensures
            r.m == m,
            r.children@.len() == 0,
            !r.visited,
    {
        MoveNode { m, children: Vec::new(), visited: false }
    }

    /// A copy of the node and of all nodes below it.
    pub fn duplicate(&self) -> (r: MoveNode)
        ensures
            r.tree() == self.tree(),
        decreases self,
    {
        let mut children: Vec<MoveNode> = Vec::new();
        let n = self.children.len();
        let mut i: usize = 0;
        while i < n
            invariant
                0 <= i <= n,
                n == self.children@.len(),
                children@.len() == i,
                forall|k: int| 0 <= k < i ==> (#[trigger] children@[k]).tree() == self.children@[k].tree(),
            decreases n - i,
        {
            let child = self.children[i].duplicate();
            children.push(child);
            i += 1;
        }
        proof {
            lemma_forest(children@);
            lemma_forest(self.children@);
            assert(forest(children@) =~= forest(self.children@));
        }
        MoveNode { m: self.m, children, visited: self.visited }
    }

    pub fn recursive_children_count(&self) -> (r: usize)
        requires
            self.size() <= usize::MAX,
        ensures
            r == self.size(),
        decreases self,
    {
        let n = self.children.len();
        let mut total: usize = n;
        let mut i: usize = 0;
        while i < n
            invariant
                0 <= i <= n,
                n == self.children@.len(),
                total == n + MoveNode::size_upto(self.children@, i as int),
                self.size() <= usize::MAX,
            decreases n - i,
        {
            proof {
                MoveNode::lemma_size_upto_grows(self.children@, i as int + 1, n as int);
            }
            let below = self.children[i].recursive_children_count();
            total = total + below;
            i += 1;
        }
        total
    }

    /// The size below more nodes is at least the size below fewer.
    pub proof fn lemma_size_upto_grows(nodes: Seq<MoveNode>, i: int, n: int)
        requires
            0 <= i <= n <= nodes.len(),
        ensures
            MoveNode::size_upto(nodes, i) <= MoveNode::size_upto(nodes, n),
        decreases n - i,
    {
        if i < n {
            MoveNode::lemma_size_upto_grows(nodes, i, n - 1);
        }
    }
}

impl Move {
    /// The cheap estimate by which moves are ordered.
    pub open spec fn spec_value(self) -> int {
        match self.action {
            Action::Move { from, to } => 0,
            Action::Capture { piece, target } => target.spec_value() / 10 - piece.spec_value() / 40,
            Action::Promote { old_piece, new_piece } => new_piece.spec_value() / 10,
            Action::CaptureAndPromote { old_piece, target, new_piece } => target.spec_value() / 10
                - old_piece.spec_value() / 40 + new_piece.spec_value() / 10,
            Action::CastleKingSide => 20,
            Action::CastleQueenSide => 10,
            Action::NoAction => 0,
        }
    }

    /// Whether the pieces whose values the estimate divides stand on the
    /// board.
    pub open spec fn valued(self) -> bool {
        match self.action {
            Action::Capture { piece, target } => piece.position.on_board()
                && target.position.on_board(),
            Action::Promote { old_piece, new_piece } => new_piece.position.on_board(),
            Action::CaptureAndPromote { old_piece, target, new_piece } => {
                old_piece.position.on_board() && target.position.on_board()
                    && new_piece.position.on_board()
            },
            _ => true,
        }
    }

    pub fn value(&self) -> (r: i16)
        requires
            self.valued(),
        ensures
            r == self.spec_value(),
            0 - 300 <= r <= 2100,
    {
        match self.action {
            Action::Move { .. } => 0,
            Action::Capture { piece, target } => target.value() / 10 - piece.value() / 40,
            Action::Promote { new_piece, .. } => new_piece.value() / 10,
            Action::CaptureAndPromote { old_piece, target, new_piece } => target.value() / 10
                - old_piece.value() / 40 + new_piece.value() / 10,
            Action::CastleKingSide => 20,
            Action::CastleQueenSide => 10,
            Action::NoAction => 0,
        }
    }

    pub fn capture_piece(piece: Piece, target: Piece) -> (r: Move)
        ensures
            r == Move::spec_capture_piece(piece, target),
    {
        Move { score: 0, action: Action::Capture { piece, target } }
    }

    pub fn move_piece(piece: Piece, to: Position) -> (r: Move)
        ensures
            r == Move::spec_move_piece(piece, to),
    {
        Move { score: 0, action: Action::Move { from: piece, to: piece.moved(to) } }
    }

    pub fn promote(piece: Piece, to: Position, t: Type) -> (r: Move)
        ensures
            r == Move::spec_promote(piece, to, t),
    {
        Move {
            score: 0,
            action: Action::Promote {
                old_piece: piece,
                new_piece: Piece { t, position: to, index: piece.index, color: piece.color },
            },
        }
    }

    /// The move of a pawn that takes `target` and becomes a piece of type
    /// `t` on its square.
    pub fn capture_and_promote(piece: Piece, target: Piece, t: Type) -> (r: Move)
        ensures
            r == Move::spec_capture_and_promote(piece, target, t),
    {
        Move {
            score: 0,
            action: Action::CaptureAndPromote {
                old_piece: piece,
                target,
                new_piece: Piece {
                    t,
                    position: target.position,
                    index: piece.index,
                    color: piece.color,
                },
            },
        }
    }

    /// The squares a move leads from and to, for a move of one piece.
    pub open spec fn spec_squares(self) -> Option<(Position, Position)> {
        match self.action {
            Action::Move { from, to } => Some((from.position, to.position)),
            Action::Capture { piece, target } => Some((piece.position, target.position)),
            Action::Promote { old_piece, new_piece } => Some(
                (old_piece.position, new_piece.position),
            ),
            Action::CaptureAndPromote { old_piece, target, new_piece } => Some(
                (old_piece.position, new_piece.position),
            ),
            _ => None,
        }
    }

    /// The squares a move leads from and to; none for castling, which moves
    /// two pieces, and for the placeholder of a search.
    pub fn squares(&self) -> (r: Option<(Position, Position)>)
        ensures
            r == self.spec_squares(),
    {
        match self.action {
            Action::Move { from, to } => Some((from.position, to.position)),
            Action::Capture { piece, target } => Some((piece.position, target.position)),
            Action::Promote { old_piece, new_piece } => Some(
                (old_piece.position, new_piece.position),
            ),
            Action::CaptureAndPromote { old_piece, target, new_piece } => Some(
                (old_piece.position, new_piece.position),
            ),
            _ => None,
        }
    }

    /// The square a move of the given side leads to, where castling counts
    /// as the move of the king.
    pub open spec fn spec_target_square(self, color: Color) -> Option<Position> {
        match self.action {
            Action::Move { from, to } => Some(to.position),
            Action::Capture { piece, target } => Some(target.position),
            Action::Promote { old_piece, new_piece } => Some(new_piece.position),
            Action::CaptureAndPromote { old_piece, target, new_piece } => Some(new_piece.position),
            Action::CastleKingSide => Some(square(6, back_rank(color))),
            Action::CastleQueenSide => Some(square(2, back_rank(color))),
            Action::NoAction => None,
        }
    }

    /// The square a move of the given side leads to; none for the
    /// placeholder of a search.
    pub fn target_square(&self, color: Color) -> (r: Option<Position>)
        ensures
            r == self.spec_target_square(color),
    {
        let y: i8 = if color == Color::White {
            0
        } else {
            7
        };
        match self.action {
            Action::Move { to, .. } => Some(to.position),
            Action::Capture { target, .. } => Some(target.position),
            Action::Promote { new_piece, .. } => Some(new_piece.position),
            Action::CaptureAndPromote { new_piece, .. } => Some(new_piece.position),
            Action::CastleKingSide => Some(Position::new(6, y)),
            Action::CastleQueenSide => Some(Position::new(2, y)),
            Action::NoAction => None,
        }
    }

    /// Every move is a valid value.
    pub fn is_valid(&self) -> (r: bool)
        ensures
            r,
    {
        true
    }
}

/// The board of a game, with the moves played on it and the tree of the last
/// search.
pub struct Board {
    white_pieces: [Option<Piece>; 16],
    black_pieces: [Option<Piece>; 16],
    used_white_pieces: usize,
    used_black_pieces: usize,
    cells: [[Cell; 8]; 8],
    move_stack: Vec<Move>,
    white_king_move_count: i32,
    white_king_rook_move_count: i32,
    white_queen_rook_move_count: i32,
    black_king_move_count: i32,
    black_king_rook_move_count: i32,
    black_queen_rook_move_count: i32,
    root_node: Option<MoveNode>,
    should_stop: bool,
}

impl Board {
    pub closed spec fn view(&self) -> Layout {
        Layout {
            cells: Seq::new(64, |i: int| self.cells@[i / 8]@[i % 8]),
            white: self.white_pieces@,
            black: self.black_pieces@,
            used_white: self.used_white_pieces as int,
            used_black: self.used_black_pieces as int,
            history: self.move_stack@,
            white_rights: Rights {
                king: self.white_king_move_count as int,
                king_rook: self.white_king_rook_move_count as int,
                queen_rook: self.white_queen_rook_move_count as int,
            },
            black_rights: Rights {
                king: self.black_king_move_count as int,
                king_rook: self.black_king_rook_move_count as int,
                queen_rook: self.black_queen_rook_move_count as int,
            },
        }
    }

    /// The tree that the last search left, if there is one.
    pub closed spec fn root(&self) -> Option<MoveNode> {
        self.root_node
    }

    /// Whether the last search was told to stop.
    pub closed spec fn stopped(&self) -> bool {
        self.should_stop
    }

    /// The cells and the piece lists agree.
    pub open spec fn wf(&self) -> bool {
        self@.wf()
    }

    /// A board always has 64 cells and sixteen slots for each side.
    pub proof fn lemma_view_shape(&self)
        ensures
            self@.cells.len() == 64,
            self@.white.len() == 16,
            self@.black.len() == 16,
            0 <= self@.used_white,
            0 <= self@.used_black,
    {
    }

    pub fn new_empty_game() -> (r: Board)
        ensures
            r@ == Layout::empty(),
            r.wf(),
            r.root() is Some,
            r.root().unwrap().tree() == fresh_tree(Move { score: 0, action: Action::NoAction }),
            !r.stopped(),
    {
        let r = Board {
            white_pieces: [None; 16],
            black_pieces: [None; 16],
            cells: [[Cell::empty(); 8]; 8],
            move_stack: Vec::new(),
            used_black_pieces: 0,
            used_white_pieces: 0,
            white_king_move_count: 0,
            white_king_rook_move_count: 0,
            white_queen_rook_move_count: 0,
            black_king_move_count: 0,
            black_king_rook_move_count: 0,
            black_queen_rook_move_count: 0,
            root_node: Some(MoveNode::new(Move { score: 0, action: Action::NoAction })),
            should_stop: false,
        };
        proof {
            assert(r@.cells =~= Layout::empty().cells);
            assert(r@.white =~= Layout::empty().white);
            assert(r@.black =~= Layout::empty().black);
            assert(r@.history =~= Layout::empty().history);
            assert forall|x: int, y: int| inside(x, y) implies #[trigger] r@.cell_ok(x, y) by {}
            assert forall|c: Color, i: int| 0 <= i < 16 implies #[trigger] r@.slot_ok(c, i) by {}
            crate::layout::lemma_potential_none(r@.white, 16);
            crate::layout::lemma_potential_none(r@.black, 16);
        }
        r
    }

    /// A copy of the board, with the moves played on it and the tree of the
    /// last search.
    pub fn duplicate(&self) -> (r: Board)
        ensures
            r@ == self@,
            r.stopped() == self.stopped(),
            root_tree(r.root()) == root_tree(self.root()),
            r.root() is Some == self.root() is Some,
    {
        let mut move_stack: Vec<Move> = Vec::new();
        let n = self.move_stack.len();
        let mut i: usize = 0;
        while i < n
            invariant
                0 <= i <= n,
                n == self.move_stack@.len(),
                move_stack@ == self.move_stack@.subrange(0, i as int),
            decreases n - i,
        {
            move_stack.push(self.move_stack[i]);
            proof {
                assert(move_stack@ =~= self.move_stack@.subrange(0, i + 1));
            }
            i += 1;
        }
        proof {
            assert(self.move_stack@.subrange(0, n as int) =~= self.move_stack@);
        }
        let root_node = match &self.root_node {
            Some(node) => Some(node.duplicate()),
            None => None,
        };
        let r = Board {
            white_pieces: self.white_pieces,
            black_pieces: self.black_pieces,
            used_white_pieces: self.used_white_pieces,
            used_black_pieces: self.used_black_pieces,
            cells: self.cells,
            move_stack,
            white_king_move_count: self.white_king_move_count,
            white_king_rook_move_count: self.white_king_rook_move_count,
            white_queen_rook_move_count: self.white_queen_rook_move_count,
            black_king_move_count: self.black_king_move_count,
            black_king_rook_move_count: self.black_king_rook_move_count,
            black_queen_rook_move_count: self.black_queen_rook_move_count,
            root_node,
            should_stop: self.should_stop,
        };
        proof {
            assert(r@.cells =~= self@.cells);
        }
        r
    }

    /// Whether the last search was told to stop.
    pub fn is_stopped(&self) -> (r: bool)
        ensures
            r == self.stopped(),
    {
        self.should_stop
    }

    /// The move at the root of the tree that the last search left.
    pub fn root_move(&self) -> (r: Option<Move>)
        ensures
            r == match self.root() {
                Some(node) => Some(node.m),
                None => None,
            },
    {
        match &self.root_node {
            Some(node) => Some(node.m),
            None => None,
        }
    }

    pub fn state(&self) -> (r: &[[Cell; 8]; 8])
        ensures
            forall|x: int, y: int|
                inside(x, y) ==> (#[trigger] r@[x]@[y]) == self@.cells[cell_index(x, y)],
    {
        &self.cells
    }

    pub fn white_pieces(&self) -> (r: [Option<Piece>; 16])
        ensures
            r@ == self@.white,
    {
        self.white_pieces
    }

    pub fn black_pieces(&self) -> (r: [Option<Piece>; 16])
        ensures
            r@ == self@.black,
    {
        self.black_pieces
    }

    /// The side to move.
    pub fn current_color(&self) -> (r: Color)
        ensures
            r == self@.turn(),
    {
        if self.move_stack.len() % 2 == 0 {
            Color::White
        } else {
            Color::Black
        }
    }

    pub fn piece_at(&self, position: &Position) -> (r: &Option<Piece>)
        requires
            position.on_board(),
        ensures
            *r == self@.piece_on(*position),
    {
        &self.cells[position.x as usize][position.y as usize].piece
    }

    pub fn cell_at(&self, position: Position) -> (r: &Cell)
        requires
            position.on_board(),
        ensures
            *r == self@.cells[cell_index(position.x as int, position.y as int)],
    {
        &self.cells[position.x as usize][position.y as usize]
    }

    /// The cell of a square, to be changed in place.
    pub fn cell_mut_at(&mut self, position: Position) -> (r: &mut Cell)
        requires
            position.on_board(),
        ensures
            *r == old(self)@.cells[cell_index(position.x as int, position.y as int)],
            final(self)@.cells.len() == 64,
            final(self)@.cells[cell_index(position.x as int, position.y as int)] == *final(r),
            forall|i: int|
                0 <= i < 64 && i != cell_index(position.x as int, position.y as int) ==> (
                #[trigger] final(self)@.cells[i]) == old(self)@.cells[i],
            final(self)@.white == old(self)@.white,
            final(self)@.black == old(self)@.black,
            final(self)@.used_white == old(self)@.used_white,
            final(self)@.used_black == old(self)@.used_black,
            final(self)@.history == old(self)@.history,
            final(self)@.white_rights == old(self)@.white_rights,
            final(self)@.black_rights == old(self)@.black_rights,
            final(self).root() == old(self).root(),
            final(self).stopped() == old(self).stopped(),
    {
        &mut self.cells[position.x as usize][position.y as usize]
    }

    /// Puts a piece into a cell.
    fn set_cell(&mut self, position: Position, piece: Option<Piece>)
        requires
            position.on_board(),
        ensures
            final(self)@ == old(self)@.set_cell(position, piece),
            final(self).root() == old(self).root(),
            final(self).stopped() == old(self).stopped(),
    {
        self.cells[position.x as usize][position.y as usize].piece = piece;
        proof {
            assert(self@.cells =~= old(self)@.set_cell(position, piece).cells);
        }
    }

    /// Puts a piece into a slot of its side's list.
    fn set_slot(&mut self, color: Color, index: usize, piece: Option<Piece>)
        requires
            index < 16,
        ensures
            final(self)@ == old(self)@.set_slot(color, index as int, piece),
            final(self).root() == old(self).root(),
            final(self).stopped() == old(self).stopped(),
    {
        match color {
            Color::White => {
                self.white_pieces[index] = piece;
            },
            Color::Black => {
                self.black_pieces[index] = piece;
            },
        }
        proof {
            assert(self@.cells =~= old(self)@.cells);
        }
    }

    /// Puts a new piece on the square in file `x` and rank `y`. The piece
    /// takes the next free slot of its side.
    pub fn add_new_piece(&mut self, color: Color, t: Type, x: i8, y: i8)
        requires
            inside(x as int, y as int),
            old(self)@.used(color) < 16,
        ensures
            final(self)@ == old(self)@.place(color, t, x as int, y as int),
            final(self).root() == old(self).root(),
            final(self).stopped() == old(self).stopped(),
            final(self)@.piece_at(x as int, y as int) is Some,
            forall|i: int, j: int|
                inside(i, j) && !(i == x && j == y) ==> #[trigger] final(self)@.piece_at(i, j)
                    == old(self)@.piece_at(i, j),
            final(self)@.history == old(self)@.history,
            final(self)@.used(color) == old(self)@.used(color) + 1,
            final(self)@.used(color.spec_other()) == old(self)@.used(color.spec_other()),
            final(self)@.list(color.spec_other()) == old(self)@.list(color.spec_other()),
            old(self).wf() ==> potential_upto(final(self)@.list(color), 16) == potential_upto(
                old(self)@.list(color),
                16,
            ) + potential(Piece { t, position: square(x as int, y as int), color, index: 0 }),
            old(self).wf() && old(self)@.history.len() == 0 && old(self)@.piece_at(
                x as int,
                y as int,
            ).is_none() && potential_upto(old(self)@.list(color), 16) + potential(
                Piece { t, position: square(x as int, y as int), color, index: 0 },
            ) <= i16::MAX ==> final(self).wf(),
    {
        let ghost before = self@;
        let position = Position { x, y };
        if color == Color::White {
            let piece = Piece { t, position, color, index: self.used_white_pieces as u8 };
            self.set_slot(color, self.used_white_pieces, Some(piece));
            self.set_cell(position, self.white_pieces[self.used_white_pieces]);
            self.used_white_pieces += 1;
        } else {
            let piece = Piece { t, position, color, index: self.used_black_pieces as u8 };
            self.set_slot(color, self.used_black_pieces, Some(piece));
            self.set_cell(position, self.black_pieces[self.used_black_pieces]);
            self.used_black_pieces += 1;
        }
        proof {
            assert(self@.cells =~= before.place(color, t, x as int, y as int).cells);
            before.lemma_place_wf(color, t, x as int, y as int);
            if before.wf() {
                assert(before.slot_ok(color, before.used(color)));
            }
        }
    }
}

/// Making moves and taking them back.
impl Board {
    /// The piece `from` becomes the piece `to`, on the square of `to`, which
    /// must be free.
    pub fn move_piece(&mut self, from: Piece, to: Piece)
        requires
            from.position.on_board(),
            from.index < 16,
            old(self)@.free(to.position),
        ensures
            final(self)@ == old(self)@.relocate(from, to),
            final(self).root() == old(self).root(),
            final(self).stopped() == old(self).stopped(),
    {
        self.set_cell(to.position, Some(to));
        self.set_cell(from.position, None);
        self.set_slot(from.color, from.index as usize, Some(to));
    }

    fn remove_piece(&mut self, piece: Piece)
        requires
            piece.position.on_board(),
            piece.index < 16,
        ensures
            final(self)@ == old(self)@.remove(piece),
            final(self).root() == old(self).root(),
            final(self).stopped() == old(self).stopped(),
    {
        self.set_cell(piece.position, None);
        self.set_slot(piece.color, piece.index as usize, None);
    }

    fn add_piece(&mut self, piece: Piece)
        requires
            piece.position.on_board(),
            piece.index < 16,
        ensures
            final(self)@ == old(self)@.restore(piece),
            final(self).root() == old(self).root(),
            final(self).stopped() == old(self).stopped(),
    {
        self.set_cell(piece.position, Some(piece));
        self.set_slot(piece.color, piece.index as usize, Some(piece));
    }

    /// Changes the counts of moves of a side by one for a move of the piece:
    /// that of the king for the king, that of a rook for a rook in its
    /// corner.
    fn count_move(&mut self, piece: Piece, up: bool)
        requires
            up ==> old(self)@.rights(piece.color).king < i32::MAX,
            up ==> old(self)@.rights(piece.color).king_rook < i32::MAX,
            up ==> old(self)@.rights(piece.color).queen_rook < i32::MAX,
            !up ==> old(self)@.rights(piece.color).king > i32::MIN,
            !up ==> old(self)@.rights(piece.color).king_rook > i32::MIN,
            !up ==> old(self)@.rights(piece.color).queen_rook > i32::MIN,
        ensures
            final(self)@ == old(self)@.count_move(
                piece,
                if up {
                    1
                } else {
                    -1
                },
            ),
            final(self).root() == old(self).root(),
            final(self).stopped() == old(self).stopped(),
    {
        let by: i32 = if up {
            1
        } else {
            -1
        };
        let white = piece.color == Color::White;
        let y: i8 = if white {
            0
        } else {
            7
        };
        if piece.t == Type::King {
            if white {
                self.white_king_move_count += by;
            } else {
                self.black_king_move_count += by;
            }
        } else if piece.t == Type::Rook && piece.position == Position::new(0, y) {
            if white {
                self.white_queen_rook_move_count += by;
            } else {
                self.black_queen_rook_move_count += by;
            }
        } else if piece.t == Type::Rook && piece.position == Position::new(7, y) {
            if white {
                self.white_king_rook_move_count += by;
            } else {
                self.black_king_rook_move_count += by;
            }
        }
        proof {
            assert(self@.cells =~= old(self)@.cells);
        }
    }

    /// King and rook of the side to move go from their files to others on
    /// the side's back rank, and their counts of moves change by one.
    fn castle(
        &mut self,
        king_from: i8,
        king_to: i8,
        rook_from: i8,
        rook_to: i8,
        king_side: bool,
        up: bool,
    )
        requires
            old(self)@.consistent(),
            0 <= king_from < 8,
            0 <= king_to < 8,
            0 <= rook_from < 8,
            0 <= rook_to < 8,
            king_from != rook_from,
            king_to != rook_to,
            king_to != rook_from,
            old(self)@.piece_at(king_from as int, back_rank(old(self)@.turn())) is Some,
            old(self)@.piece_at(rook_from as int, back_rank(old(self)@.turn())) is Some,
            old(self)@.piece_at(king_to as int, back_rank(old(self)@.turn())) is None,
            old(self)@.piece_at(rook_to as int, back_rank(old(self)@.turn())) is None,
            up ==> old(self)@.rights(old(self)@.turn()).king < i32::MAX,
            up ==> old(self)@.rights(old(self)@.turn()).king_rook < i32::MAX,
            up ==> old(self)@.rights(old(self)@.turn()).queen_rook < i32::MAX,
            !up ==> old(self)@.rights(old(self)@.turn()).king > i32::MIN,
            !up ==> old(self)@.rights(old(self)@.turn()).king_rook > i32::MIN,
            !up ==> old(self)@.rights(old(self)@.turn()).queen_rook > i32::MIN,
        ensures
            final(self)@ == old(self)@.castle(
                king_from as int,
                king_to as int,
                rook_from as int,
                rook_to as int,
                king_side,
                if up {
                    1
                } else {
                    -1
                },
            ),
            final(self).root() == old(self).root(),
            final(self).stopped() == old(self).stopped(),
    {
        let by: i32 = if up {
            1
        } else {
            -1
        };
        let color = self.current_color();
        let y: i8 = if color == Color::White {
            0
        } else {
            7
        };
        proof {
            self@.lemma_castle(
                king_from as int,
                king_to as int,
                rook_from as int,
                rook_to as int,
                king_side,
                by as int,
            );
        }
        let king = self.piece_at(&Position::new(king_from, y)).unwrap();
        let rook = self.piece_at(&Position::new(rook_from, y)).unwrap();
        self.move_piece(king, king.moved(Position::new(king_to, y)));
        self.move_piece(rook, rook.moved(Position::new(rook_to, y)));
        if color == Color::White {
            self.white_king_move_count += by;
            if king_side {
                self.white_king_rook_move_count += by;
            } else {
                self.white_queen_rook_move_count += by;
            }
        } else {
            self.black_king_move_count += by;
            if king_side {
                self.black_king_rook_move_count += by;
            } else {
                self.black_queen_rook_move_count += by;
            }
        }
        proof {
            assert(self@.cells =~= old(self)@.castle(
                king_from as int,
                king_to as int,
                rook_from as int,
                rook_to as int,
                king_side,
                by as int,
            ).cells);
        }
    }

    #[verifier::rlimit(50)]
    fn make_move(&mut self, m: Move)
        requires
            old(self)@.sound(),
            old(self)@.can_make(m),
        ensures
            final(self)@ == old(self)@.make(m),
            final(self).root() == old(self).root(),
            final(self).stopped() == old(self).stopped(),
    {
        proof {
            self@.lemma_make(m);
        }
        match m.action {
            Action::NoAction => {},
            Action::Move { from, to } => {
                proof {
                    self@.lemma_in_play(from);
                }
                self.move_piece(from, to);
                self.count_move(from, true);
            },
            Action::Capture { piece, target } => {
                proof {
                    self@.lemma_in_play(piece);
                    self@.lemma_in_play(target);
                    self@.lemma_remove(target);
                }
                self.remove_piece(target);
                self.move_piece(piece, piece.moved(target.position));
                self.count_move(piece, true);
            },
            Action::Promote { old_piece, new_piece } => {
                proof {
                    self@.lemma_in_play(old_piece);
                }
                self.move_piece(old_piece, new_piece);
            },
            Action::CaptureAndPromote { old_piece, target, new_piece } => {
                proof {
                    self@.lemma_in_play(old_piece);
                    self@.lemma_in_play(target);
                    self@.lemma_remove(target);
                }
                self.remove_piece(target);
                self.move_piece(old_piece, new_piece);
            },
            Action::CastleKingSide => {
                self.castle(4, 6, 7, 5, true, true);
            },
            Action::CastleQueenSide => {
                self.castle(4, 2, 0, 3, false, true);
            },
        }
    }

    fn unmake_move(&mut self, m: Move)
        requires
            old(self)@.consistent(),
            old(self)@.counted(),
            old(self)@.can_unmake(m),
        ensures
            final(self)@ == old(self)@.unmake(m),
            final(self).root() == old(self).root(),
            final(self).stopped() == old(self).stopped(),
    {
        match m.action {
            Action::NoAction => {},
            Action::Move { from, to } => {
                proof {
                    self@.lemma_in_play(to);
                }
                self.move_piece(to, from);
                self.count_move(from, false);
            },
            Action::Capture { piece, target } => {
                proof {
                    self@.lemma_in_play(piece.spec_moved(target.position));
                }
                self.move_piece(piece.moved(target.position), piece);
                self.add_piece(target);
                self.count_move(piece, false);
            },
            Action::Promote { old_piece, new_piece } => {
                proof {
                    self@.lemma_in_play(new_piece);
                }
                self.move_piece(new_piece, old_piece);
            },
            Action::CaptureAndPromote { old_piece, target, new_piece } => {
                proof {
                    self@.lemma_in_play(new_piece);
                }
                self.move_piece(new_piece, old_piece);
                self.add_piece(target);
            },
            Action::CastleKingSide => {
                self.castle(6, 4, 5, 7, true, false);
            },
            Action::CastleQueenSide => {
                self.castle(2, 4, 3, 0, false, false);
            },
        }
    }

    /// Plays a move: it is made on the board and put on the history.
    pub fn push_move(&mut self, m: Move)
        requires
            old(self).wf(),
            old(self)@.can_make(m),
        ensures
            final(self)@ == old(self)@.push(m),
            final(self).wf(),
            final(self).root() == old(self).root(),
            final(self).stopped() == old(self).stopped(),
    {
        proof {
            self@.lemma_push(m);
        }
        self.make_move(m);
        self.move_stack.push(m);
        proof {
            assert(self@.cells =~= old(self)@.push(m).cells);
        }
    }

    /// Takes back the last move played.
    pub fn pop_move(&mut self)
        requires
            old(self).wf(),
            old(self)@.history.len() > 0,
        ensures
            final(self)@ == old(self)@.pop(),
            final(self).wf(),
            final(self).root() == old(self).root(),
            final(self).stopped() == old(self).stopped(),
    {
        let ghost shorter = Layout { history: self@.history.drop_last(), ..self@ };
        proof {
            self@.lemma_sound();
            self@.lemma_same_pieces(shorter);
        }
        let m = self.move_stack.pop().unwrap();
        proof {
            assert(self@.cells =~= shorter.cells);
            assert(self@ == shorter);
        }
        self.unmake_move(m);
    }

    pub fn last_move(&self) -> (r: Option<Move>)
        ensures
            r == if self@.history.len() > 0 {
                Some(self@.history.last())
            } else {
                None
            },
    {
        let n = self.move_stack.len();
        if n > 0 {
            Some(self.move_stack[n - 1])
        } else {
            None
        }
    }

    /// Whether every cell agrees with the piece lists.
    fn cells_agree(&self) -> (r: bool)
        ensures
            r == (forall|x: int, y: int| inside(x, y) ==> #[trigger] self@.cell_ok(x, y)),
    {
        let mut x: i8 = 0;
        while x < 8
            invariant
                0 <= x <= 8,
                forall|i: int, j: int| inside(i, j) && i < x ==> #[trigger] self@.cell_ok(i, j),
            decreases 8 - x,
        {
            let mut y: i8 = 0;
            while y < 8
                invariant
                    0 <= x < 8,
                    0 <= y <= 8,
                    forall|i: int, j: int|
                        inside(i, j) && (i < x || (i == x && j < y)) ==> #[trigger] self@.cell_ok(
                            i,
                            j,
                        ),
                decreases 8 - y,
            {
                let position = Position { x, y };
                let agrees = match *self.piece_at(&position) {
                    Some(p) => p.position == position && self.in_play(&p),
                    None => true,
                };
                if !agrees {
                    assert(!self@.cell_ok(x as int, y as int));
                    return false;
                }
                assert(self@.cell_ok(x as int, y as int));
                y += 1;
            }
            x += 1;
        }
        true
    }

    /// Whether every slot of a side agrees with the cells.
    fn slots_agree(&self, color: Color) -> (r: bool)
        ensures
            r == (forall|i: int| 0 <= i < 16 ==> #[trigger] self@.slot_ok(color, i)),
    {
        let used = match color {
            Color::White => self.used_white_pieces,
            Color::Black => self.used_black_pieces,
        };
        let mut i: usize = 0;
        while i < 16
            invariant
                0 <= i <= 16,
                used == self@.used(color),
                forall|k: int| 0 <= k < i ==> #[trigger] self@.slot_ok(color, k),
            decreases 16 - i,
        {
            let slot = match color {
                Color::White => self.white_pieces[i],
                Color::Black => self.black_pieces[i],
            };
            assert(slot == self@.list(color)[i as int]);
            let agrees = match slot {
                Some(p) => p.color == color && p.index as usize == i && i < used
                    && p.position.x >= 0 && p.position.x <= 7 && p.position.y >= 0
                    && p.position.y <= 7 && *self.piece_at(&p.position) == Some(p),
                None => true,
            };
            if !agrees {
                assert(!self@.slot_ok(color, i as int));
                return false;
            }
            assert(self@.slot_ok(color, i as int));
            i += 1;
        }
        true
    }

    /// The most that the pieces of a side can come to be worth.
    fn potential_sum(&self, color: Color) -> (r: i32)
        ensures
            r == potential_upto(self@.list(color), 16),
    {
        let mut sum: i32 = 0;
        let mut i: usize = 0;
        while i < 16
            invariant
                0 <= i <= 16,
                sum == potential_upto(self@.list(color), i as int),
                0 <= sum <= 10006 * i,
            decreases 16 - i,
        {
            let slot = match color {
                Color::White => self.white_pieces[i],
                Color::Black => self.black_pieces[i],
            };
            assert(slot == self@.list(color)[i as int]);
            if let Some(p) = slot {
                sum += Board::potential_of(&p) as i32;
            }
            i += 1;
        }
        sum
    }

    /// Whether none of three counts of moves is below nothing or above the
    /// number of moves played.
    fn counts_in_range(&self, king: i32, king_rook: i32, queen_rook: i32) -> (r: bool)
        ensures
            r == self@.rights_ok(
                Rights {
                    king: king as int,
                    king_rook: king_rook as int,
                    queen_rook: queen_rook as int,
                },
            ),
    {
        let n = self.move_stack.len();
        king >= 0 && king as usize <= n && king_rook >= 0 && king_rook as usize <= n && queen_rook
            >= 0 && queen_rook as usize <= n
    }

    /// Whether the board is sound: the cells and the piece lists agree, no
    /// counter of moves exceeds the number of moves played, and the
    /// evaluation fits in sixteen bits whatever becomes of the pieces.
    pub fn is_sound(&self) -> (r: bool)
        ensures
            r == self@.sound(),
    {
        if self.used_white_pieces > 16 || self.used_black_pieces > 16 {
            return false;
        }
        let cells = self.cells_agree();
        let white = self.slots_agree(Color::White);
        let black = self.slots_agree(Color::Black);
        proof {
            if white && black {
                assert forall|c: Color, i: int| 0 <= i < 16 implies #[trigger] self@.slot_ok(
                    c,
                    i,
                ) by {
                    match c {
                        Color::White => {},
                        Color::Black => {},
                    }
                }
            }
        }
        cells && white && black && self.counts_in_range(
            self.white_king_move_count,
            self.white_king_rook_move_count,
            self.white_queen_rook_move_count,
        ) && self.counts_in_range(
            self.black_king_move_count,
            self.black_king_rook_move_count,
            self.black_queen_rook_move_count,
        ) && self.potential_sum(Color::White) <= 32767 && self.potential_sum(Color::Black)
            <= 32767
    }

    /// The number of moves played.
    pub fn depth(&self) -> (r: usize)
        ensures
            r == self@.history.len(),
    {
        self.move_stack.len()
    }
}

/// The receiving end of a channel of the standard library.
#[verifier::external_type_specification]
#[verifier::external_body]
#[verifier::reject_recursive_types(T)]
pub struct ExReceiver<T>(Receiver<T>);

/// Asks `Receiver::try_recv` whether a command is waiting, and takes it off
/// the channel if one is. Nothing is claimed of the answer: it depends on
/// what the other end of the channel has sent by now.
#[verifier::external_body]
fn command_waiting(rx: &Receiver<Command>) -> (r: bool) {
    rx.try_recv().is_ok()
}

/// The search.
impl Board {
    /// Whether the piece is in play.
    fn in_play(&self, p: &Piece) -> (r: bool)
        ensures
            r == self@.in_play(*p),
    {
        if p.index >= 16 {
            return false;
        }
        let slot = match p.color {
            Color::White => self.white_pieces[p.index as usize],
            Color::Black => self.black_pieces[p.index as usize],
        };
        match slot {
            Some(q) => q == *p,
            None => false,
        }
    }

    /// Whether the square is on the board and empty.
    fn free(&self, position: Position) -> (r: bool)
        ensures
            r == self@.free(position),
    {
        position.x >= 0 && position.x <= 7 && position.y >= 0 && position.y <= 7 && self.piece_at(
            &position,
        ).is_none()
    }

    /// Whether the side to move can castle to the given side.
    fn can_castle(&self, king_side: bool) -> (r: bool)
        ensures
            r == self@.can_castle(king_side),
    {
        let color = self.current_color();
        let y: i8 = if color == Color::White {
            0
        } else {
            7
        };
        let corner: i8 = if king_side {
            7
        } else {
            0
        };
        let king_ok = match *self.piece_at(&Position::new(4, y)) {
            Some(k) => k.t == Type::King && k.color == color,
            None => false,
        };
        let rook_ok = match *self.piece_at(&Position::new(corner, y)) {
            Some(r) => r.t == Type::Rook && r.color == color,
            None => false,
        };
        let clear = if king_side {
            self.piece_at(&Position::new(5, y)).is_none() && self.piece_at(
                &Position::new(6, y),
            ).is_none()
        } else {
            self.piece_at(&Position::new(1, y)).is_none() && self.piece_at(
                &Position::new(2, y),
            ).is_none() && self.piece_at(&Position::new(3, y)).is_none()
        };
        king_ok && rook_ok && clear
    }

    /// The most a piece can ever be worth to the evaluation.
    fn potential_of(p: &Piece) -> (r: i16)
        ensures
            r == potential(*p),
    {
        match p.t {
            Type::Pawn => 930,
            Type::Bishop => 300,
            Type::Knight => 330,
            Type::Rook => 530,
            Type::Queen => 930,
            Type::King => 10006,
        }
    }

    /// Whether a move can be made on the board as it stands.
    pub fn can_make(&self, m: &Move) -> (r: bool)
        ensures
            r == self@.can_make(*m),
    {
        if self.move_stack.len() >= 0x7fff_ffff {
            return false;
        }
        match m.action {
            Action::NoAction => false,
            Action::Move { from, to } => self.in_play(&from) && to == from.moved(to.position)
                && self.free(to.position),
            Action::Capture { piece, target } => self.in_play(&piece) && self.in_play(&target)
                && target.color != piece.color,
            Action::Promote { old_piece, new_piece } => self.in_play(&old_piece)
                && Board::potential_of(&new_piece) <= Board::potential_of(&old_piece)
                && new_piece.color == old_piece.color && new_piece.index == old_piece.index
                && self.free(new_piece.position),
            Action::CaptureAndPromote { old_piece, target, new_piece } => self.in_play(&old_piece)
                && self.in_play(&target) && target.color != old_piece.color
                && Board::potential_of(&new_piece) <= Board::potential_of(&old_piece)
                && new_piece.color == old_piece.color && new_piece.index == old_piece.index
                && new_piece.position == target.position,
            Action::CastleKingSide => self.can_castle(true),
            Action::CastleQueenSide => self.can_castle(false),
        }
    }

    /// The sum of the values of the pieces of a list.
    fn material(list: &[Option<Piece>; 16]) -> (sum: i16)
        requires
            forall|i: int|
                0 <= i < 16 ==> (#[trigger] list@[i] matches Some(p) ==> p.position.on_board()),
            potential_upto(list@, 16) <= i16::MAX,
        ensures
            sum == value_upto(list@, 16),
            0 <= sum,
    {
        let mut sum: i16 = 0;
        let mut i: usize = 0;
        while i < 16
            invariant
                0 <= i <= 16,
                forall|i: int|
                    0 <= i < 16 ==> (#[trigger] list@[i] matches Some(p) ==> p.position.on_board()),
                potential_upto(list@, 16) <= i16::MAX,
                sum == value_upto(list@, i as int),
                0 <= sum <= potential_upto(list@, i as int),
            decreases 16 - i,
        {
            proof {
                lemma_value_below_potential(list@, i + 1);
                crate::layout::lemma_potential_grows(list@, i + 1, 16);
            }
            if let Some(piece) = list[i] {
                sum += piece.value();
            }
            i += 1;
        }
        sum
    }

    /// The static evaluation of the board from the point of view of the side
    /// to move.
    pub fn evaluate_position(&mut self) -> (r: i16)
        requires
            old(self)@.sound(),
        ensures
            r == old(self)@.evaluation(),
            -i16::MAX <= r <= i16::MAX,
            final(self)@ == old(self)@,
            final(self).root() == old(self).root(),
            final(self).stopped() == old(self).stopped(),
    {
        proof {
            self@.lemma_evaluation_bound();
            assert forall|i: int| 0 <= i < 16 implies (#[trigger] self@.white[i] matches Some(p)
                ==> p.position.on_board()) by {
                assert(self@.slot_ok(Color::White, i));
            }
            assert forall|i: int| 0 <= i < 16 implies (#[trigger] self@.black[i] matches Some(p)
                ==> p.position.on_board()) by {
                assert(self@.slot_ok(Color::Black, i));
            }
        }
        let black_value = Board::material(&self.black_pieces);
        let white_value = Board::material(&self.white_pieces);
        if self.current_color() == Color::White {
            white_value - black_value
        } else {
            black_value - white_value
        }
    }

    /// The key by which the moves of a node are ordered.
    fn key_of(m: &Move) -> (r: i32)
        ensures
            r == sort_key(*m),
    {
        let valued = match m.action {
            Action::Capture { piece, target } => piece.position.x >= 0 && piece.position.x <= 7
                && piece.position.y >= 0 && piece.position.y <= 7 && target.position.x >= 0
                && target.position.x <= 7 && target.position.y >= 0 && target.position.y <= 7,
            Action::Promote { new_piece, .. } => new_piece.position.x >= 0 && new_piece.position.x
                <= 7 && new_piece.position.y >= 0 && new_piece.position.y <= 7,
            Action::CaptureAndPromote { old_piece, target, new_piece } => old_piece.position.x >= 0
                && old_piece.position.x <= 7 && old_piece.position.y >= 0 && old_piece.position.y
                <= 7 && target.position.x >= 0 && target.position.x <= 7 && target.position.y >= 0
                && target.position.y <= 7 && new_piece.position.x >= 0 && new_piece.position.x <= 7
                && new_piece.position.y >= 0 && new_piece.position.y <= 7,
            _ => true,
        };
        let value: i32 = if valued {
            m.value() as i32
        } else {
            0
        };
        value + m.score as i32
    }

    /// Orders the nodes by falling key: the estimate of each move and the
    /// score the last search gave it. Nodes of equal key keep their order.
    #[verifier::rlimit(50)]
    pub fn sort_moves(&self, moves: &mut Vec<MoveNode>)
        ensures
            forest(final(moves)@) == sorted_trees(forest(old(moves)@)),
            final(moves)@.len() == old(moves)@.len(),
    {
        let n = moves.len();
        let ghost inputs = forest(moves@);
        let mut i: usize = 0;
        proof {
            lemma_forest(moves@);
            assert(inputs.subrange(0, 0) =~= Seq::<Tree>::empty());
            assert(forest(moves@).subrange(0, 0) =~= Seq::<Tree>::empty());
        }
        while i < n
            invariant
                0 <= i <= n,
                moves@.len() == n,
                inputs.len() == n,
                forest(moves@).len() == n,
                forest(moves@).subrange(0, i as int) == sorted_trees(inputs.subrange(0, i as int)),
                forest(moves@).subrange(i as int, n as int) == inputs.subrange(i as int, n as int),
            decreases n - i,
        {
            let ghost before = forest(moves@);
            let ghost sorted = before.subrange(0, i as int);
            let ghost t = before[i as int];
            proof {
                lemma_forest(moves@);
                assert(inputs.subrange(0, i + 1).drop_last() =~= inputs.subrange(0, i as int));
                assert(before.subrange(i as int, n as int)[0] == inputs.subrange(
                    i as int,
                    n as int,
                )[0]);
                assert(inputs.subrange(0, i + 1).last() == t);
                assert(sorted.subrange(0, i as int) =~= sorted);
                assert(sorted.subrange(i as int, i as int) =~= Seq::<Tree>::empty());
                assert(insert_tree(sorted, t) =~= insert_tree(sorted, t) + Seq::<Tree>::empty());
            }
            let key = Board::key_of(&moves[i].m);
            let mut j: usize = i;
            while j > 0 && Board::key_of(&moves[j - 1].m) < key
                invariant
                    0 <= j <= i < n,
                    moves@.len() == n,
                    before == forest(moves@),
                    before.len() == n,
                    sorted == before.subrange(0, i as int),
                    t == before[i as int],
                    key == sort_key(t.m),
                    insert_tree(sorted, t) == insert_tree(sorted.subrange(0, j as int), t)
                        + sorted.subrange(j as int, i as int),
                decreases j,
            {
                proof {
                    lemma_forest(moves@);
                    let prefix = sorted.subrange(0, j as int);
                    assert(prefix.last() == sorted[j - 1]);
                    assert(prefix.drop_last() =~= sorted.subrange(0, j - 1));
                    assert(insert_tree(sorted.subrange(0, j - 1), t).push(sorted[j - 1])
                        + sorted.subrange(j as int, i as int) =~= insert_tree(
                        sorted.subrange(0, j - 1),
                        t,
                    ) + sorted.subrange(j - 1, i as int));
                }
                j -= 1;
            }
            proof {
                lemma_forest(moves@);
                let prefix = sorted.subrange(0, j as int);
                assert(insert_tree(prefix, t) == prefix.push(t)) by {
                    if j > 0 {
                        assert(prefix.last() == sorted[j - 1]);
                    }
                }
            }
            let ghost nodes = moves@;
            let node = moves.remove(i);
            moves.insert(j, node);
            proof {
                lemma_forest(nodes);
                lemma_forest(moves@);
                let after = forest(moves@);
                let prefix = sorted.subrange(0, j as int);
                assert(after.subrange(0, i + 1) =~= prefix.push(t) + sorted.subrange(
                    j as int,
                    i as int,
                ));
                assert(after.subrange(i + 1, n as int) =~= inputs.subrange(i + 1, n as int)) by {
                    assert forall|k: int| i < k < n implies after[k] == inputs[k] by {
                        assert(before.subrange(i as int, n as int)[k - i] == inputs.subrange(
                            i as int,
                            n as int,
                        )[k - i]);
                    }
                }
            }
            i += 1;
        }
        proof {
            assert(forest(moves@).subrange(0, n as int) =~= forest(moves@));
            assert(inputs.subrange(0, n as int) =~= inputs);
        }
    }
}

/// Move generation. Every generator appends a fresh node for each move it
/// finds.
impl Board {
    /// Appends the move of a piece onto the square `(x, y)`, if it has one
    /// there.
    fn step_into(&self, piece: &Piece, x: i8, y: i8, only_captures: bool, moves: &mut Vec<MoveNode>)
        ensures
            appended(
                old(moves)@,
                final(moves)@,
                self@.step(*piece, x as int, y as int, only_captures),
            ),
    {
        if x < 0 || x > 7 || y < 0 || y > 7 {
            return ;
        }
        let position = Position::new(x, y);
        match *self.piece_at(&position) {
            Some(target) => {
                if target.color != piece.color {
                    moves.push(MoveNode::new(Move::capture_piece(*piece, target)));
                }
            },
            None => {
                if !only_captures {
                    moves.push(MoveNode::new(Move::move_piece(*piece, position)));
                }
            },
        }
    }

    /// Appends the moves of a piece along the ray in direction `(dx, dy)`.
    #[verifier::rlimit(50)]
    fn slide_into(
        &self,
        piece: &Piece,
        dx: i8,
        dy: i8,
        only_captures: bool,
        moves: &mut Vec<MoveNode>,
    )
        requires
            piece.position.on_board(),
            -1 <= dx <= 1,
            -1 <= dy <= 1,
        ensures
            appended(
                old(moves)@,
                final(moves)@,
                self@.ray(*piece, dx as int, dy as int, only_captures),
            ),
    {
        let mut x: i8 = piece.position.x + dx;
        let mut y: i8 = piece.position.y + dy;
        let mut k: i8 = 1;
        let mut blocked = false;
        let ghost whole = self@.ray(*piece, dx as int, dy as int, only_captures);
        let ghost mut done: Seq<Move> = Seq::empty();
        while !blocked && k < 8 && 0 <= x && x <= 7 && 0 <= y && y <= 7
            invariant
                1 <= k <= 8,
                -1 <= dx <= 1,
                -1 <= dy <= 1,
                -1 <= x <= 8,
                -1 <= y <= 8,
                appended(old(moves)@, moves@, done),
                blocked ==> whole == done,
                !blocked ==> whole == done + self@.slide(
                    *piece,
                    x as int,
                    y as int,
                    dx as int,
                    dy as int,
                    k as int,
                    only_captures,
                ),
            decreases
                    (if blocked {
                        0int
                    } else {
                        9 - k
                    }),
        {
            let ghost before = moves@;
            let position = Position::new(x, y);
            match *self.piece_at(&position) {
                Some(target) => {
                    if target.color != piece.color {
                        let m = Move::capture_piece(*piece, target);
                        moves.push(MoveNode::new(m));
                        proof {
                            lemma_appended_twice(old(moves)@, before, moves@, done, seq![m]);
                            done = done + seq![m];
                        }
                    } else {
                        proof {
                            assert(done + Seq::<Move>::empty() =~= done);
                        }
                    }
                    blocked = true;
                },
                None => {
                    let ghost rest = self@.slide(
                        *piece,
                        x + dx,
                        y + dy,
                        dx as int,
                        dy as int,
                        k + 1,
                        only_captures,
                    );
                    if !only_captures {
                        let m = Move::move_piece(*piece, position);
                        moves.push(MoveNode::new(m));
                        proof {
                            lemma_appended_twice(old(moves)@, before, moves@, done, seq![m]);
                            assert(done + (seq![m] + rest) =~= (done + seq![m]) + rest);
                            done = done + seq![m];
                        }
                    } else {
                        proof {
                            assert(done + (Seq::<Move>::empty() + rest) =~= done + rest);
                        }
                    }
                    x = x + dx;
                    y = y + dy;
                    k = k + 1;
                },
            }
        }
        proof {
            assert(done + Seq::<Move>::empty() =~= done);
        }
    }

    pub fn append_knight_moves(
        &self,
        piece: &Piece,
        moves: &mut Vec<MoveNode>,
        only_captures: bool,
    )
        requires
            piece.position.on_board(),
        ensures
            appended(old(moves)@, final(moves)@, self@.jumps(*piece, 8, only_captures)),
    {
        let dx: [i8; 8] = [1, -1, -2, -2, -1, 1, 2, 2];
        let dy: [i8; 8] = [2, 2, 1, -1, -2, -2, -1, 1];
        let mut i: usize = 0;
        proof {
            assert(moves@ =~= old(moves)@);
        }
        while i < 8
            invariant
                0 <= i <= 8,
                piece.position.on_board(),
                forall|j: int| 0 <= j < 8 ==> dx[j] == jump_dx(j) && dy[j] == jump_dy(j),
                forall|j: int| 0 <= j < 8 ==> -2 <= #[trigger] dx[j] <= 2,
                forall|j: int| 0 <= j < 8 ==> -2 <= #[trigger] dy[j] <= 2,
                appended(old(moves)@, moves@, self@.jumps(*piece, i as int, only_captures)),
            decreases 8 - i,
        {
            let ghost before = moves@;
            let x: i8 = piece.position.x + dx[i];
            let y: i8 = piece.position.y + dy[i];
            self.step_into(piece, x, y, only_captures, moves);
            proof {
                lemma_appended_twice(
                    old(moves)@,
                    before,
                    moves@,
                    self@.jumps(*piece, i as int, only_captures),
                    self@.step(*piece, x as int, y as int, only_captures),
                );
            }
            i += 1;
        }
    }

    #[verifier::rlimit(50)]
    pub fn append_king_moves(&self, piece: &Piece, moves: &mut Vec<MoveNode>, only_captures: bool)
        requires
            piece.position.on_board(),
        ensures
            appended(old(moves)@, final(moves)@, self@.king_moves(*piece, only_captures)),
    {
        let dx: [i8; 8] = [-1, -1, 0, 1, 1, 1, 0, -1];
        let dy: [i8; 8] = [0, 1, 1, 1, 0, -1, -1, -1];
        let mut i: usize = 0;
        proof {
            assert(moves@ =~= old(moves)@);
        }
        while i < 8
            invariant
                0 <= i <= 8,
                piece.position.on_board(),
                forall|j: int| 0 <= j < 8 ==> dx[j] == walk_dx(j) && dy[j] == walk_dy(j),
                forall|j: int| 0 <= j < 8 ==> -2 <= #[trigger] dx[j] <= 2,
                forall|j: int| 0 <= j < 8 ==> -2 <= #[trigger] dy[j] <= 2,
                appended(old(moves)@, moves@, self@.walk(*piece, i as int, only_captures)),
            decreases 8 - i,
        {
            let ghost before = moves@;
            let x: i8 = piece.position.x + dx[i];
            let y: i8 = piece.position.y + dy[i];
            self.step_into(piece, x, y, only_captures, moves);
            proof {
                lemma_appended_twice(
                    old(moves)@,
                    before,
                    moves@,
                    self@.walk(*piece, i as int, only_captures),
                    self@.step(*piece, x as int, y as int, only_captures),
                );
            }
            i += 1;
        }
        let ghost walked = moves@;
        let ghost mut done: Seq<Move> = Seq::empty();
        let color = piece.color;
        let y: i8 = if color == Color::White {
            0
        } else {
            7
        };
        let (king_count, king_rook_count, queen_rook_count) = if color == Color::White {
            (
                self.white_king_move_count,
                self.white_king_rook_move_count,
                self.white_queen_rook_move_count,
            )
        } else {
            (
                self.black_king_move_count,
                self.black_king_rook_move_count,
                self.black_queen_rook_move_count,
            )
        };
        if king_count == 0 {
            if king_rook_count == 0 {
                if let Some(maybe_rook) = *self.piece_at(&Position::new(7, y)) {
                    if self.piece_at(&Position::new(5, y)).is_none() && self.piece_at(
                        &Position::new(6, y),
                    ).is_none() && maybe_rook.color == color {
                        let m = Move { score: 0, action: Action::CastleKingSide };
                        moves.push(MoveNode::new(m));
                        proof {
                            done = seq![m];
                        }
                    }
                }
            }
            let ghost between = moves@;
            assert(appended(walked, between, done));
            if queen_rook_count == 0 {
                if let Some(maybe_rook) = *self.piece_at(&Position::new(0, y)) {
                    if self.piece_at(&Position::new(1, y)).is_none() && self.piece_at(
                        &Position::new(2, y),
                    ).is_none() && self.piece_at(&Position::new(3, y)).is_none()
                        && maybe_rook.color == color {
                        let m = Move { score: 0, action: Action::CastleQueenSide };
                        moves.push(MoveNode::new(m));
                        proof {
                            lemma_appended_twice(walked, between, moves@, done, seq![m]);
                            done = done + seq![m];
                        }
                    }
                }
            }
        }
        proof {
            assert(done =~= self@.castlings(*piece));
            lemma_appended_twice(
                old(moves)@,
                walked,
                moves@,
                self@.walk(*piece, 8, only_captures),
                self@.castlings(*piece),
            );
        }
    }

    pub fn append_rook_moves(&self, piece: &Piece, moves: &mut Vec<MoveNode>, only_captures: bool)
        requires
            piece.position.on_board(),
        ensures
            appended(old(moves)@, final(moves)@, self@.rook_moves(*piece, only_captures)),
    {
        let ghost r1 = self@.ray(*piece, 1, 0, only_captures);
        let ghost r2 = self@.ray(*piece, -1, 0, only_captures);
        let ghost r3 = self@.ray(*piece, 0, 1, only_captures);
        let ghost r4 = self@.ray(*piece, 0, -1, only_captures);
        self.slide_into(piece, 1, 0, only_captures, moves);
        let ghost b1 = moves@;
        self.slide_into(piece, -1, 0, only_captures, moves);
        let ghost b2 = moves@;
        self.slide_into(piece, 0, 1, only_captures, moves);
        let ghost b3 = moves@;
        self.slide_into(piece, 0, -1, only_captures, moves);
        proof {
            lemma_appended_twice(old(moves)@, b1, b2, r1, r2);
            lemma_appended_twice(old(moves)@, b2, b3, r1 + r2, r3);
            lemma_appended_twice(old(moves)@, b3, moves@, r1 + r2 + r3, r4);
        }
    }

    pub fn append_bishop_moves(
        &self,
        piece: &Piece,
        moves: &mut Vec<MoveNode>,
        only_captures: bool,
    )
        requires
            piece.position.on_board(),
        ensures
            appended(old(moves)@, final(moves)@, self@.bishop_moves(*piece, only_captures)),
    {
        let ghost r1 = self@.ray(*piece, 1, 1, only_captures);
        let ghost r2 = self@.ray(*piece, -1, 1, only_captures);
        let ghost r3 = self@.ray(*piece, -1, -1, only_captures);
        let ghost r4 = self@.ray(*piece, 1, -1, only_captures);
        self.slide_into(piece, 1, 1, only_captures, moves);
        let ghost b1 = moves@;
        self.slide_into(piece, -1, 1, only_captures, moves);
        let ghost b2 = moves@;
        self.slide_into(piece, -1, -1, only_captures, moves);
        let ghost b3 = moves@;
        self.slide_into(piece, 1, -1, only_captures, moves);
        proof {
            lemma_appended_twice(old(moves)@, b1, b2, r1, r2);
            lemma_appended_twice(old(moves)@, b2, b3, r1 + r2, r3);
            lemma_appended_twice(old(moves)@, b3, moves@, r1 + r2 + r3, r4);
        }
    }

    /// Appends a pawn's move onto a square diagonally ahead, if it has one.
    fn pawn_diagonal_into(
        &self,
        piece: &Piece,
        x: i8,
        y: i8,
        include_control: bool,
        moves: &mut Vec<MoveNode>,
    )
        ensures
            appended(
                old(moves)@,
                final(moves)@,
                self@.pawn_diagonal(*piece, x as int, y as int, include_control),
            ),
    {
        if x < 0 || x > 7 || y < 0 || y > 7 {
            return ;
        }
        let position = Position::new(x, y);
        let last: i8 = if piece.color == Color::White {
            7
        } else {
            0
        };
        match *self.piece_at(&position) {
            Some(target) => {
                if target.color != piece.color {
                    if y == last {
                        moves.push(
                            MoveNode::new(Move::capture_and_promote(*piece, target, Type::Queen)),
                        );
                    } else {
                        moves.push(MoveNode::new(Move::capture_piece(*piece, target)));
                    }
                }
            },
            None => {
                if include_control {
                    moves.push(MoveNode::new(Move::move_piece(*piece, position)));
                }
            },
        }
    }

    #[verifier::rlimit(50)]
    pub fn append_pawn_moves(
        &self,
        piece: &Piece,
        moves: &mut Vec<MoveNode>,
        only_captures: bool,
        include_control: bool,
    )
        requires
            piece.position.on_board(),
        ensures
            appended(
                old(moves)@,
                final(moves)@,
                self@.pawn_moves(*piece, only_captures, include_control),
            ),
    {
        let white = piece.color == Color::White;
        let x = piece.position.x;
        let y = piece.position.y;
        let dir: i8 = if white {
            1
        } else {
            -1
        };
        let last: i8 = if white {
            7
        } else {
            0
        };
        let start: i8 = if white {
            1
        } else {
            6
        };
        let ghost left = self@.pawn_diagonal(*piece, x - 1, y + dir, include_control);
        let ghost right = self@.pawn_diagonal(*piece, x + 1, y + dir, include_control);
        let ghost straight = self@.pawn_ahead(*piece, only_captures, include_control);
        self.pawn_diagonal_into(piece, x - 1, y + dir, include_control, moves);
        let ghost b1 = moves@;
        self.pawn_diagonal_into(piece, x + 1, y + dir, include_control, moves);
        let ghost b2 = moves@;
        let ahead: i8 = y + dir;
        if ahead >= 0 && ahead <= 7 && self.piece_at(&Position::new(x, ahead)).is_none() {
            if ahead == last {
                moves.push(MoveNode::new(Move::promote(*piece, Position::new(x, ahead), Type::Queen)));
            } else if !only_captures && !include_control {
                moves.push(MoveNode::new(Move::move_piece(*piece, Position::new(x, ahead))));
                if y == start && self.piece_at(&Position::new(x, ahead + dir)).is_none() {
                    moves.push(
                        MoveNode::new(Move::move_piece(*piece, Position::new(x, ahead + dir))),
                    );
                }
            }
        }
        proof {
            assert(appended(b2, moves@, straight));
            lemma_appended_twice(old(moves)@, b1, b2, left, right);
            lemma_appended_twice(old(moves)@, b2, moves@, left + right, straight);
        }
    }

    pub fn append_piece_moves(
        &self,
        piece: &Piece,
        moves: &mut Vec<MoveNode>,
        only_captures: bool,
        include_control: bool,
    )
        requires
            piece.position.on_board(),
        ensures
            appended(
                old(moves)@,
                final(moves)@,
                self@.piece_moves(*piece, only_captures, include_control),
            ),
    {
        match piece.t {
            Type::Pawn => self.append_pawn_moves(piece, moves, only_captures, include_control),
            Type::Rook => self.append_rook_moves(piece, moves, only_captures),
            Type::Bishop => self.append_bishop_moves(piece, moves, only_captures),
            Type::King => self.append_king_moves(piece, moves, only_captures),
            Type::Queen => {
                self.append_rook_moves(piece, moves, only_captures);
                let ghost between = moves@;
                self.append_bishop_moves(piece, moves, only_captures);
                proof {
                    lemma_appended_twice(
                        old(moves)@,
                        between,
                        moves@,
                        self@.rook_moves(*piece, only_captures),
                        self@.bishop_moves(*piece, only_captures),
                    );
                }
            },
            Type::Knight => self.append_knight_moves(piece, moves, only_captures),
        }
    }

    /// The moves of one piece, each in a fresh node.
    pub fn collect_piece_moves(&self, piece: &Piece) -> (r: Vec<MoveNode>)
        requires
            piece.position.on_board(),
        ensures
            appended(Seq::empty(), r@, self@.piece_moves(*piece, false, false)),
    {
        let mut moves = Vec::with_capacity(14);
        self.append_piece_moves(piece, &mut moves, false, false);
        moves
    }

    /// All moves of a side, each in a fresh node.
    pub fn collect_all_moves(&self, color: Color, only_captures: bool, include_control: bool) -> (r:
        Vec<MoveNode>)
        requires
            self@.sound(),
        ensures
            appended(Seq::empty(), r@, self@.all_moves(color, only_captures, include_control)),
    {
        let mut moves: Vec<MoveNode> = Vec::with_capacity(30);
        let used = match color {
            Color::White => self.used_white_pieces,
            Color::Black => self.used_black_pieces,
        };
        let mut i: usize = 0;
        while i < used
            invariant
                0 <= i <= used <= 16,
                used == self@.used(color),
                self@.sound(),
                appended(
                    Seq::empty(),
                    moves@,
                    self@.moves_upto(color, i as int, only_captures, include_control),
                ),
            decreases used - i,
        {
            let slot = match color {
                Color::White => self.white_pieces[i],
                Color::Black => self.black_pieces[i],
            };
            let ghost before = moves@;
            let ghost sofar = self@.moves_upto(color, i as int, only_captures, include_control);
            if let Some(piece) = slot {
                proof {
                    assert(self@.slot_ok(color, i as int));
                }
                self.append_piece_moves(&piece, &mut moves, only_captures, include_control);
                proof {
                    lemma_appended_twice(
                        Seq::empty(),
                        before,
                        moves@,
                        sofar,
                        self@.piece_moves(piece, only_captures, include_control),
                    );
                }
            } else {
                proof {
                    assert(sofar + Seq::<Move>::empty() =~= sofar);
                }
            }
            i += 1;
        }
        moves
    }
}

/// The search over the tree of moves.
impl Board {
    /// Searches a node `depth` plies deep under the window from `alpha` to
    /// `beta` and returns its score. The node keeps what the search found:
    /// its children, once generated, and their scores. The board is left as
    /// it was found. The search first asks whether a command is waiting on
    /// the channel, and goes on as `search_told` says for the answer.
    /// Whatever the channel answers, a search that began unstopped is the
    /// search that `Layout::watch` describes for the number of times the
    /// answer was no before it was yes.
    pub fn search(
        &mut self,
        depth: i32,
        alpha: i16,
        beta: i16,
        parent: &mut MoveNode,
        only_captures: bool,
        rx: &Receiver<Command>,
    ) -> (r: i16)
        requires
            old(self).wf(),
            -11 <= depth,
            only_captures || 0 <= depth,
            alpha > i16::MIN,
            beta > i16::MIN,
        ensures
            final(self)@ == old(self)@,
            final(self).wf(),
            final(self).root() == old(self).root(),
            old(self).stopped() ==> final(self).stopped(),
            old(self).stopped() ==> (r as int, final(parent).tree())
                == old(self)@.explore_known(
                depth as int,
                alpha as int,
                beta as int,
                old(parent).tree(),
                only_captures,
            ),
            !final(self).stopped() ==> (r as int, final(parent).tree()) == old(self)@.explore(
                depth as int,
                alpha as int,
                beta as int,
                old(parent).tree(),
                only_captures,
            ),
            search_ends(old(parent).m, depth as int, only_captures) ==> {
                &&& r == old(self)@.evaluation()
                &&& *final(parent) == *old(parent)
            },
            depth == 1 && !only_captures ==> (r as int, final(parent).tree())
                == old(self)@.explore_as(
                final(self).stopped(),
                1,
                alpha as int,
                beta as int,
                old(parent).tree(),
                false,
            ) || (r as int, final(parent).tree()) == old(self)@.explore(
                1,
                alpha as int,
                beta as int,
                old(parent).tree(),
                false,
            ),
            !old(self).stopped() ==> exists|polls: int|
                0 <= polls && #[trigger] old(self)@.watched(
                    polls,
                    depth as int,
                    alpha as int,
                    beta as int,
                    old(parent).tree(),
                    only_captures,
                    r as int,
                    final(parent).tree(),
                    final(self).stopped(),
                ),
            -i16::MAX <= r <= i16::MAX,
        decreases depth + 12, 2int,
    {
        let ghost start = self@;
        let ghost node = parent.tree();
        let ghost known = self.stopped();
        let waiting = command_waiting(rx);
        let r = self.search_told(waiting, depth, alpha, beta, parent, only_captures, rx);
        proof {
            if !known {
                if waiting {
                    start.lemma_watch_told_at_once(
                        depth as int,
                        alpha as int,
                        beta as int,
                        node,
                        only_captures,
                    );
                } else {
                    let polls = choose|polls: int|
                        0 <= polls && #[trigger] start.watched_told(
                            polls,
                            depth as int,
                            alpha as int,
                            beta as int,
                            node,
                            only_captures,
                            r as int,
                            parent.tree(),
                            self.stopped(),
                        );
                    start.lemma_watch_asked(
                        polls,
                        depth as int,
                        alpha as int,
                        beta as int,
                        node,
                        only_captures,
                        r as int,
                        parent.tree(),
                        self.stopped(),
                    );
                }
            }
        }
        r
    }

    /// The search of a node, given whether a command was waiting when it
    /// began. A search that was told to stop, now or before, stays stopped
    /// and generates no moves: its result is that of the search over the
    /// nodes already generated, whatever arrives on the channel later. One
    /// that was not told to stop gives the result of the whole search,
    /// unless a search further down is told to stop: then it is the search
    /// that `Layout::watch_told` describes for the number of times the
    /// searches further down were answered no before that. A search of one
    /// ply is made in full either way, and a search that finds no move to
    /// make asks for no command.
    #[verifier::rlimit(50)]
    pub fn search_told(
        &mut self,
        waiting: bool,
        depth: i32,
        alpha: i16,
        beta: i16,
        parent: &mut MoveNode,
        only_captures: bool,
        rx: &Receiver<Command>,
    ) -> (r: i16)
        requires
            old(self).wf(),
            -11 <= depth,
            only_captures || 0 <= depth,
            alpha > i16::MIN,
            beta > i16::MIN,
        ensures
            final(self)@ == old(self)@,
            final(self).wf(),
            final(self).root() == old(self).root(),
            old(self).stopped() || waiting ==> final(self).stopped(),
            old(self).stopped() || waiting ==> (r as int, final(parent).tree())
                == old(self)@.explore_known(
                depth as int,
                alpha as int,
                beta as int,
                old(parent).tree(),
                only_captures,
            ),
            !final(self).stopped() ==> (r as int, final(parent).tree()) == old(self)@.explore(
                depth as int,
                alpha as int,
                beta as int,
                old(parent).tree(),
                only_captures,
            ),
            search_ends(old(parent).m, depth as int, only_captures) ==> {
                &&& r == old(self)@.evaluation()
                &&& *final(parent) == *old(parent)
                &&& final(self).stopped() == (old(self).stopped() || waiting)
            },
            depth == 1 && !only_captures && !old(self).stopped() && !waiting ==> (
                r as int,
                final(parent).tree(),
            ) == old(self)@.explore(1, alpha as int, beta as int, old(parent).tree(), false),
            !old(self).stopped() && !waiting && old(self)@.no_move(
                old(self)@.to_search(old(parent).tree(), only_captures),
            ) ==> !final(self).stopped(),
            !old(self).stopped() && !waiting ==> exists|polls: int|
                0 <= polls && #[trigger] old(self)@.watched_told(
                    polls,
                    depth as int,
                    alpha as int,
                    beta as int,
                    old(parent).tree(),
                    only_captures,
                    r as int,
                    final(parent).tree(),
                    final(self).stopped(),
                ),
            -i16::MAX <= r <= i16::MAX,
        decreases depth + 12, 1int,
    {
        let ghost start = self@;
        let ghost node = parent.tree();
        let ghost known = self.stopped() || waiting;
        proof {
            self@.lemma_sound();
            if search_ends(parent.m, depth as int, only_captures) {
                start.lemma_watch_ends(depth as int, alpha as int, beta as int, node, only_captures);
            }
        }
        if waiting {
            self.should_stop = true;
        }
        let king_captured = match parent.m.action {
            Action::Capture { target, .. } => target.t == Type::King,
            Action::CaptureAndPromote { target, .. } => target.t == Type::King,
            _ => false,
        };
        if king_captured {
            return self.evaluate_position();
        }
        if depth == 0 && !only_captures {
            return self.evaluate_position();
        }
        if only_captures && depth < -10 {
            return self.evaluate_position();
        }
        if !parent.visited && !self.should_stop {
            let mut tmp_children = self.collect_all_moves(
                self.current_color(),
                only_captures,
                false,
            );
            proof {
                lemma_fresh_forest(
                    tmp_children@,
                    self@.all_moves(self@.turn(), only_captures, false),
                );
            }
            let r = if !only_captures {
                parent.visited = true;
                parent.children = tmp_children;
                self.search_children(depth, alpha, beta, &mut parent.children, only_captures, rx)
            } else {
                self.search_children(depth, alpha, beta, &mut tmp_children, only_captures, rx)
            };
            proof {
                let trees = if only_captures {
                    forest(tmp_children@)
                } else {
                    forest(parent.children@)
                };
                let polls = choose|polls: int|
                    0 <= polls && #[trigger] start.watched_children(
                        polls,
                        depth as int,
                        alpha as int,
                        beta as int,
                        start.to_search(node, only_captures),
                        only_captures,
                        r as int,
                        trees,
                        self.stopped(),
                    );
                start.lemma_watch_node(
                    polls,
                    depth as int,
                    alpha as int,
                    beta as int,
                    node,
                    only_captures,
                    r as int,
                    trees,
                    self.stopped(),
                );
            }
            r
        } else {
            let r = self.search_children(
                depth,
                alpha,
                beta,
                &mut parent.children,
                only_captures,
                rx,
            );
            proof {
                if !known {
                    let trees = forest(parent.children@);
                    let polls = choose|polls: int|
                        0 <= polls && #[trigger] start.watched_children(
                            polls,
                            depth as int,
                            alpha as int,
                            beta as int,
                            start.to_search(node, only_captures),
                            only_captures,
                            r as int,
                            trees,
                            self.stopped(),
                        );
                    start.lemma_watch_node(
                        polls,
                        depth as int,
                        alpha as int,
                        beta as int,
                        node,
                        only_captures,
                        r as int,
                        trees,
                        self.stopped(),
                    );
                }
            }
            r
        }
    }

    /// Searches the children of a node: orders them, and searches them one
    /// by one.
    #[verifier::loop_isolation(false)]
    #[verifier::rlimit(50)]
    fn search_children(
        &mut self,
        depth: i32,
        alpha: i16,
        beta: i16,
        children: &mut Vec<MoveNode>,
        only_captures: bool,
        rx: &Receiver<Command>,
    ) -> (r: i16)
        requires
            old(self).wf(),
            -10 <= depth,
            only_captures || 1 <= depth,
            alpha > i16::MIN,
            beta > i16::MIN,
        ensures
            final(self)@ == old(self)@,
            final(self).wf(),
            final(self).root() == old(self).root(),
            old(self).stopped() ==> final(self).stopped(),
            old(self).stopped() || !final(self).stopped() || (depth == 1 && !only_captures) ==> (
                r as int,
                forest(final(children)@),
            ) == old(self)@.explore_children(
                old(self).stopped(),
                depth as int,
                alpha as int,
                beta as int,
                forest(old(children)@),
                only_captures,
            ),
            old(self)@.no_move(forest(old(children)@)) ==> final(self).stopped() == old(
                self,
            ).stopped(),
            !old(self).stopped() ==> exists|polls: int|
                0 <= polls && #[trigger] old(self)@.watched_children(
                    polls,
                    depth as int,
                    alpha as int,
                    beta as int,
                    forest(old(children)@),
                    only_captures,
                    r as int,
                    forest(final(children)@),
                    final(self).stopped(),
                ),
            -i16::MAX <= r <= i16::MAX,
        decreases depth + 12, 0int,
    {
        let ghost start = self@;
        let ghost known = self.stopped();
        let ghost first_alpha = alpha as int;
        let ghost unsorted = forest(children@);
        let ghost mut polls: int = 0;
        let ghost shallow = depth == 1 && !only_captures;
        let ghost idle = start.no_move(forest(children@));
        let ghost whole = start.explore_children(
            known,
            depth as int,
            alpha as int,
            beta as int,
            forest(children@),
            only_captures,
        );
        proof {
            self@.lemma_sound();
            lemma_forest(children@);
            lemma_sorted_trees_members(forest(children@));
        }
        if children.len() == 0 {
            proof {
                start.lemma_watch_childless(
                    depth as int,
                    first_alpha,
                    beta as int,
                    unsorted,
                    only_captures,
                );
            }
            return self.evaluate_position();
        }
        self.sort_moves(children);
        proof {
            lemma_forest(children@);
            start.lemma_watch_start(
                depth as int,
                first_alpha,
                beta as int,
                forest(children@),
                only_captures,
            );
            if idle {
                assert forall|k: int| 0 <= k < children@.len() implies !start.can_make(
                    #[trigger] children@[k].m,
                ) by {
                    assert(unsorted.contains(sorted_trees(unsorted)[k]));
                    let j = choose|j: int|
                        0 <= j < unsorted.len() && unsorted[j] == sorted_trees(unsorted)[k];
                    assert(forest(children@)[k] == children@[k].tree());
                    assert(!start.can_make(unsorted[j].m));
                }
            }
        }
        let n = children.len();
        let mut alpha = alpha;
        let mut i: usize = 0;
        while i < n
            invariant
                0 <= i <= n,
                children@.len() == n,
                self@ == start,
                self.wf(),
                self.root() == old(self).root(),
                known ==> self.stopped(),
                idle ==> self.stopped() == known,
                idle ==> forall|k: int|
                    0 <= k < n ==> !start.can_make(#[trigger] children@[k].m),
                i16::MIN < alpha,
                known || !self.stopped() || shallow ==> start.explore_from(
                    known,
                    depth as int,
                    alpha as int,
                    beta as int,
                    forest(children@),
                    i as int,
                    only_captures,
                ) == whole,
                0 <= polls,
                !known ==> start.watch_reached(
                    self.stopped(),
                    polls,
                    depth as int,
                    first_alpha,
                    beta as int,
                    sorted_trees(unsorted),
                    alpha as int,
                    forest(children@),
                    i as int,
                    only_captures,
                ),
            decreases n - i,
        {
            let m = children[i].m;
            let ghost before = forest(children@);
            let ghost child_before = children@[i as int];
            let ghost stopped_before = self.stopped();
            let ghost alpha_before = alpha as int;
            proof {
                lemma_forest(children@);
            }
            if self.can_make(&m) {
                proof {
                    start.lemma_push(m);
                }
                self.push_move(m);
                let answer = self.search(
                    depth - 1,
                    -beta,
                    -alpha,
                    &mut children[i],
                    only_captures,
                    rx,
                );
                let score: i16 = -answer;
                self.pop_move();
                let ghost sub = children@[i as int].tree();
                let ghost nodes = children@;
                children[i].m.score = score;
                proof {
                    let child = Tree { m: Move { score, ..sub.m }, ..sub };
                    assert(children@[i as int].tree() == child);
                    lemma_forest(children@);
                    lemma_forest(nodes);
                    assert(forest(children@) =~= forest(nodes).update(i as int, child));
                    if shallow {
                        assert(search_ends(m, depth - 1, only_captures));
                        assert(nodes[i as int] == child_before);
                        assert(sub == before[i as int]);
                        assert(start.push(m).explore_as(
                            known,
                            depth - 1,
                            -beta,
                            -alpha,
                            before[i as int],
                            only_captures,
                        ) == (start.push(m).evaluation(), before[i as int]));
                    }
                    assert(forest(nodes) =~= before.update(i as int, sub));
                    assert(forest(children@) =~= before.update(i as int, child));
                    if !known {
                        let pushed = start.push(m);
                        let child_polls = if stopped_before {
                            0
                        } else {
                            choose|child_polls: int|
                                0 <= child_polls && #[trigger] pushed.watched(
                                    child_polls,
                                    depth - 1,
                                    -beta,
                                    -alpha_before,
                                    before[i as int],
                                    only_captures,
                                    answer as int,
                                    sub,
                                    self.stopped(),
                                )
                        };
                        start.lemma_watch_searched(
                            stopped_before,
                            polls,
                            child_polls,
                            depth as int,
                            first_alpha,
                            beta as int,
                            unsorted,
                            alpha_before,
                            before,
                            i as int,
                            only_captures,
                            answer as int,
                            sub,
                            self.stopped(),
                        );
                        polls = polls + child_polls;
                    }
                }
                if score >= beta {
                    return beta;
                }
                if score > alpha {
                    alpha = score;
                }
            } else {
                proof {
                    if !known {
                        start.lemma_watch_passed(
                            self.stopped(),
                            polls,
                            depth as int,
                            first_alpha,
                            beta as int,
                            sorted_trees(unsorted),
                            alpha as int,
                            before,
                            i as int,
                            only_captures,
                        );
                    }
                }
            }
            i += 1;
        }
        proof {
            lemma_forest(children@);
            if !known {
                start.lemma_watch_over(
                    self.stopped(),
                    polls,
                    depth as int,
                    first_alpha,
                    beta as int,
                    unsorted,
                    alpha as int,
                    forest(children@),
                    only_captures,
                );
            }
        }
        alpha
    }

    /// The best of the children of a node: the first whose score no other
    /// child's exceeds.
    fn best_of(node: &MoveNode) -> (r: Option<Move>)
        ensures
            r == best_child(node.tree().children, 0, None, -i16::MAX),
    {
        let mut best_move: Option<Move> = None;
        let mut best_score: i16 = -i16::MAX;
        let n = node.children.len();
        let mut i: usize = 0;
        proof {
            lemma_forest(node.children@);
        }
        while i < n
            invariant
                0 <= i <= n,
                n == node.children@.len(),
                forest(node.children@).len() == n,
                forall|k: int|
                    0 <= k < n ==> (#[trigger] forest(node.children@)[k]) == node.children@[k].tree(),
                best_child(forest(node.children@), i as int, best_move, best_score as int)
                    == best_child(forest(node.children@), 0, None, -i16::MAX),
            decreases n - i,
        {
            if node.children[i].m.score > best_score {
                best_score = node.children[i].m.score;
                best_move = Some(node.children[i].m);
            }
            i += 1;
        }
        best_move
    }

    /// Searches for the best move of the side to move, with searches of
    /// depth one up to `depth - 1`, each started from the tree that the one
    /// before it left. Returns the best move of the last of these searches
    /// that was completed, and none if no search was. A command that waits
    /// on the channel ends the search; what the search it interrupts had
    /// found is not looked at. Before its first search it asks whether a
    /// command is waiting, and goes on as `find_best_move_told` says for the
    /// answer. The flag of an earlier search that was stopped is cleared.
    /// Whatever the channel answers, the search is the one that
    /// `Layout::seek_asking` describes for the number of times the answer
    /// was no before it was yes.
    pub fn find_best_move(&mut self, depth: i32, rx: &Receiver<Command>) -> (r: Option<Move>)
        requires
            old(self).wf(),
        ensures
            final(self)@ == old(self)@,
            final(self).wf(),
            final(self).root() is Some,
            depth <= 1 ==> r is None && !final(self).stopped(),
            exists|k: int|
                {
                    &&& 0 <= k
                    &&& k < depth || k == 0
                    &&& r == #[trigger] old(self)@.found(root_tree(old(self).root()), k)
                    &&& !final(self).stopped() ==> {
                        &&& k == depth - 1 || (k == 0 && depth <= 1)
                        &&& final(self).root().unwrap().tree() == old(self)@.deepen(
                            root_tree(old(self).root()),
                            k,
                        )
                    }
                    &&& depth > 1 && k == 0 ==> {
                        &&& final(self).stopped()
                        &&& final(self).root().unwrap().tree() == old(self)@.deepen(
                            root_tree(old(self).root()),
                            1,
                        ) || final(self).root().unwrap().tree() == old(self)@.explore_known(
                            1,
                            -i16::MAX,
                            i16::MAX as int,
                            root_tree(old(self).root()),
                            false,
                        ).1
                    }
                },
            exists|polls: int|
                0 <= polls && #[trigger] old(self)@.sought_asking(
                    polls,
                    depth as int,
                    root_tree(old(self).root()),
                    r,
                    final(self).root().unwrap().tree(),
                    final(self).stopped(),
                ),
    {
        let ghost start = self@;
        let ghost first = root_tree(self.root());
        let waiting = if depth > 1 {
            command_waiting(rx)
        } else {
            false
        };
        let r = self.find_best_move_told(waiting, depth, rx);
        proof {
            let tree = self.root().unwrap().tree();
            if waiting {
                start.lemma_seek_told_at_once(depth as int, first);
            } else {
                let polls = choose|polls: int|
                    0 <= polls && #[trigger] start.sought(
                        false,
                        polls,
                        depth as int,
                        first,
                        r,
                        tree,
                        self.stopped(),
                    );
                start.lemma_seek_asked(polls, depth as int, first, r, tree, self.stopped());
            }
        }
        r
    }

    /// The search for the best move, given whether a command was waiting
    /// when the first search began. If one was, no search is completed: no
    /// move is found, and the tree is left as the stopped search of depth
    /// one leaves it. If none was, the result is that of the last search
    /// that no later command stopped: the search is the one that
    /// `Layout::seek` describes for the number of times the answer was no
    /// before it was yes. The search of depth one is made in full either
    /// way.
    #[verifier::loop_isolation(false)]
    #[verifier::rlimit(50)]
    pub fn find_best_move_told(&mut self, waiting: bool, depth: i32, rx: &Receiver<Command>) -> (r:
        Option<Move>)
        requires
            old(self).wf(),
        ensures
            final(self)@ == old(self)@,
            final(self).wf(),
            final(self).root() is Some,
            depth <= 1 ==> r is None && !final(self).stopped(),
            waiting && depth > 1 ==> {
                &&& r is None
                &&& final(self).stopped()
                &&& final(self).root().unwrap().tree() == old(self)@.explore_known(
                    1,
                    -i16::MAX,
                    i16::MAX as int,
                    root_tree(old(self).root()),
                    false,
                ).1
            },
            exists|k: int|
                {
                    &&& 0 <= k
                    &&& k < depth || k == 0
                    &&& r == #[trigger] old(self)@.found(root_tree(old(self).root()), k)
                    &&& !final(self).stopped() ==> {
                        &&& k == depth - 1 || (k == 0 && depth <= 1)
                        &&& final(self).root().unwrap().tree() == old(self)@.deepen(
                            root_tree(old(self).root()),
                            k,
                        )
                    }
                    &&& !waiting && depth > 1 && k == 0 ==> {
                        &&& final(self).stopped()
                        &&& final(self).root().unwrap().tree() == old(self)@.deepen(
                            root_tree(old(self).root()),
                            1,
                        )
                    }
                },
            exists|polls: int|
                0 <= polls && #[trigger] old(self)@.sought(
                    waiting,
                    polls,
                    depth as int,
                    root_tree(old(self).root()),
                    r,
                    final(self).root().unwrap().tree(),
                    final(self).stopped(),
                ),
    {
        let ghost start = self@;
        let ghost first = root_tree(self.root());
        let ghost mut polls: int = 0;
        let mut root_node = match self.root_node.take() {
            Some(node) => node,
            None => MoveNode::new(Move { score: 0, action: Action::NoAction }),
        };
        proof {
            lemma_forest(root_node.children@);
            assert(self@.cells =~= start.cells);
        }
        self.should_stop = false;
        let mut best_move: Option<Move> = None;
        let mut i_depth: i32 = 1;
        let mut told = waiting;
        proof {
            start.lemma_seek_start(waiting, depth as int, first);
            if depth <= 1 {
                start.lemma_seek_none(waiting, depth as int, first);
            }
        }
        while i_depth < depth
            invariant
                1 <= i_depth,
                i_depth <= depth || i_depth == 1,
                self@ == start,
                self.wf(),
                !self.stopped(),
                i_depth == 1 ==> told == waiting,
                i_depth > 1 ==> !waiting,
                root_node.tree() == start.deepen(first, i_depth - 1),
                best_move == start.found(first, i_depth - 1),
                0 <= polls,
                i_depth > 1 && i_depth >= depth ==> !told,
                start.seek_reached(
                    waiting,
                    told,
                    polls,
                    depth as int,
                    first,
                    i_depth as int,
                    root_node.tree(),
                    best_move,
                ),
            decreases depth - i_depth,
        {
            let ghost tree = root_node.tree();
            let ghost best = best_move;
            let score = self.search_told(
                told,
                i_depth,
                -i16::MAX,
                i16::MAX,
                &mut root_node,
                false,
                rx,
            );
            if self.should_stop {
                proof {
                    let search_polls = if told {
                        0
                    } else {
                        choose|search_polls: int|
                            0 <= search_polls && #[trigger] start.watched_told(
                                search_polls,
                                i_depth as int,
                                -i16::MAX,
                                i16::MAX as int,
                                tree,
                                false,
                                score as int,
                                root_node.tree(),
                                true,
                            )
                    };
                    start.lemma_seek_stopped(
                        waiting,
                        told,
                        polls,
                        search_polls,
                        depth as int,
                        first,
                        i_depth as int,
                        tree,
                        best,
                        score as int,
                        root_node.tree(),
                    );
                    polls = polls + search_polls;
                }
                break ;
            }
            best_move = Board::best_of(&root_node);
            i_depth += 1;
            if i_depth < depth {
                told = command_waiting(rx);
            }
            proof {
                let search_polls = choose|search_polls: int|
                    0 <= search_polls && #[trigger] start.watched_told(
                        search_polls,
                        i_depth - 1,
                        -i16::MAX,
                        i16::MAX as int,
                        tree,
                        false,
                        score as int,
                        root_node.tree(),
                        false,
                    );
                start.lemma_seek_searched(
                    waiting,
                    polls,
                    search_polls,
                    depth as int,
                    first,
                    i_depth - 1,
                    tree,
                    best,
                    score as int,
                    root_node.tree(),
                    told,
                );
                polls = if i_depth < depth && !told {
                    polls + search_polls + 1
                } else {
                    polls + search_polls
                };
            }
        }
        proof {
            if !self.stopped() && depth > 1 {
                start.lemma_seek_over(
                    waiting,
                    polls,
                    depth as int,
                    first,
                    i_depth as int,
                    root_node.tree(),
                    best_move,
                );
            }
        }
        let ghost last = root_node.tree();
        let ghost asked = if !self.stopped() && depth <= 1 {
            0
        } else {
            polls
        };
        self.root_node = Some(root_node);
        proof {
            assert(self@.cells =~= start.cells);
            let k = i_depth - 1;
            assert(best_move == start.found(first, k));
            assert(self.root().unwrap().tree() == last);
            assert(start.sought(
                waiting,
                asked,
                depth as int,
                first,
                best_move,
                self.root().unwrap().tree(),
                self.stopped(),
            ));
        }
        best_move
    }

    /// Tells the board that a move is about to be played: the tree of the
    /// last search goes on from the node of that move, if it has one, and
    /// starts afresh if it has none.
    pub fn make_move_root(&mut self, m: Move)
        ensures
            final(self)@ == old(self)@,
            final(self).stopped() == old(self).stopped(),
            final(self).root() is Some,
            final(self).root().unwrap().tree() == next_root(old(self).root(), m),
    {
        let ghost start = self@;
        let fresh = MoveNode::new(Move { score: 0, action: Action::NoAction });
        proof {
            lemma_forest(fresh.children@);
        }
        match self.root_node.take() {
            None => {
                self.root_node = Some(fresh);
            },
            Some(root) => {
                let mut children = root.children;
                let n = children.len();
                let mut i: usize = 0;
                proof {
                    lemma_forest(children@);
                }
                while i < n && children[i].m != m
                    invariant
                        0 <= i <= n,
                        n == children@.len(),
                        forall|k: int| 0 <= k < i ==> (#[trigger] children@[k]).m != m,
                    decreases n - i,
                {
                    i += 1;
                }
                proof {
                    lemma_child_for(forest(children@), m, 0, i as int);
                }
                if i < n {
                    let child = children.remove(i);
                    self.root_node = Some(child);
                } else {
                    self.root_node = Some(fresh);
                }
            },
        }
        proof {
            assert(self@.cells =~= start.cells);
        }
    }
}

/// Boards to start from, and what is asked of a board from outside.
impl Board {
    /// Puts a new piece on a free square of a board without history.
    fn put(&mut self, color: Color, t: Type, x: i8, y: i8)
        requires
            inside(x as int, y as int),
            old(self).wf(),
            old(self)@.history.len() == 0,
            old(self)@.used(color) < 16,
            old(self)@.piece_at(x as int, y as int) is None,
            potential_upto(old(self)@.list(color), 16) + potential(
                Piece { t, position: square(x as int, y as int), color, index: 0 },
            ) <= i16::MAX,
        ensures
            final(self)@ == old(self)@.place(color, t, x as int, y as int),
            final(self).wf(),
            final(self).root() == old(self).root(),
            final(self).stopped() == old(self).stopped(),
            final(self)@.piece_at(x as int, y as int) is Some,
            forall|i: int, j: int|
                inside(i, j) && !(i == x && j == y) ==> #[trigger] final(self)@.piece_at(i, j)
                    == old(self)@.piece_at(i, j),
            final(self)@.history.len() == 0,
            final(self)@.used(color) == old(self)@.used(color) + 1,
            final(self)@.used(color.spec_other()) == old(self)@.used(color.spec_other()),
            potential_upto(final(self)@.list(color.spec_other()), 16) == potential_upto(
                old(self)@.list(color.spec_other()),
                16,
            ),
            potential_upto(final(self)@.list(color), 16) == potential_upto(
                old(self)@.list(color),
                16,
            ) + potential(Piece { t, position: square(x as int, y as int), color, index: 0 }),
    {
        self.add_new_piece(color, t, x, y);
    }

    /// A fresh board has nothing on it.
    proof fn lemma_empty(&self)
        requires
            self@ == Layout::empty(),
        ensures
            forall|i: int, j: int| inside(i, j) ==> (#[trigger] self@.piece_at(i, j)) is None,
            potential_upto(self@.white, 16) == 0,
            potential_upto(self@.black, 16) == 0,
            self@.history.len() == 0,
            self@.used_white == 0,
            self@.used_black == 0,
    {
        crate::layout::lemma_potential_none(self@.white, 16);
        crate::layout::lemma_potential_none(self@.black, 16);
    }

    /// A board with one pawn for each side.
    pub fn new_promote_game() -> (r: Board)
        ensures
            r@ == Layout::empty().place(Color::White, Type::Pawn, 0, 1).place(
                Color::Black,
                Type::Pawn,
                7,
                6,
            ),
            r.wf(),
            r.root() is Some,
            r.root().unwrap().tree() == fresh_tree(Move { score: 0, action: Action::NoAction }),
            !r.stopped(),
    {
        let mut game = Board::new_empty_game();
        proof {
            game.lemma_empty();
        }
        game.put(Color::White, Type::Pawn, 0, 1);
        game.put(Color::Black, Type::Pawn, 7, 6);
        game
    }

    /// A board with two pawns for each side.
    pub fn new_two_pawn_game() -> (r: Board)
        ensures
            r@ == Layout::empty().place(Color::White, Type::Pawn, 0, 1).place(
                Color::White,
                Type::Pawn,
                5,
                1,
            ).place(Color::Black, Type::Pawn, 1, 6).place(Color::Black, Type::Pawn, 5, 6),
            r.wf(),
            r.root() is Some,
            r.root().unwrap().tree() == fresh_tree(Move { score: 0, action: Action::NoAction }),
            !r.stopped(),
    {
        let mut game = Board::new_empty_game();
        proof {
            game.lemma_empty();
        }
        game.put(Color::White, Type::Pawn, 0, 1);
        game.put(Color::White, Type::Pawn, 5, 1);
        game.put(Color::Black, Type::Pawn, 1, 6);
        game.put(Color::Black, Type::Pawn, 5, 6);
        game
    }

    /// A board with all thirty-two pieces on their starting squares.
    pub fn new_classic_game() -> (r: Board)
        ensures
            r@ == Layout::classic(),
            r.wf(),
            r.root() is Some,
            r.root().unwrap().tree() == fresh_tree(Move { score: 0, action: Action::NoAction }),
            !r.stopped(),
    {
        let mut game = Board::new_pawn_game();
        game.put(Color::White, Type::Rook, 0, 0);
        game.put(Color::White, Type::Rook, 7, 0);
        game.put(Color::Black, Type::Rook, 0, 7);
        game.put(Color::Black, Type::Rook, 7, 7);
        game.put(Color::White, Type::King, 4, 0);
        game.put(Color::Black, Type::King, 4, 7);
        game.put(Color::White, Type::Queen, 3, 0);
        game.put(Color::Black, Type::Queen, 3, 7);
        game.put(Color::White, Type::Bishop, 2, 0);
        game.put(Color::White, Type::Bishop, 5, 0);
        game.put(Color::Black, Type::Bishop, 2, 7);
        game.put(Color::Black, Type::Bishop, 5, 7);
        game.put(Color::White, Type::Knight, 1, 0);
        game.put(Color::White, Type::Knight, 6, 0);
        game.put(Color::Black, Type::Knight, 1, 7);
        game.put(Color::Black, Type::Knight, 6, 7);
        game
    }

    /// A board on which three rooks and a king face three rooks and a king.
    pub fn new_win_game() -> (r: Board)
        ensures
            r@ == Layout::empty().place(Color::White, Type::Rook, 0, 0).place(
                Color::White,
                Type::Rook,
                1,
                0,
            ).place(Color::White, Type::Rook, 2, 0).place(Color::Black, Type::Rook, 5, 0).place(
                Color::Black,
                Type::Rook,
                5,
                1,
            ).place(Color::Black, Type::Rook, 5, 2).place(Color::White, Type::King, 0, 7).place(
                Color::Black,
                Type::King,
                7,
                5,
            ),
            r.wf(),
            r.root() is Some,
            r.root().unwrap().tree() == fresh_tree(Move { score: 0, action: Action::NoAction }),
            !r.stopped(),
    {
        let mut game = Board::new_empty_game();
        proof {
            game.lemma_empty();
        }
        game.put(Color::White, Type::Rook, 0, 0);
        game.put(Color::White, Type::Rook, 1, 0);
        game.put(Color::White, Type::Rook, 2, 0);
        game.put(Color::Black, Type::Rook, 5, 0);
        game.put(Color::Black, Type::Rook, 5, 1);
        game.put(Color::Black, Type::Rook, 5, 2);
        game.put(Color::White, Type::King, 0, 7);
        game.put(Color::Black, Type::King, 7, 5);
        game
    }

    /// A board with the pawns of both sides and four rooks for each.
    pub fn new_test_game() -> (r: Board)
        ensures
            r@ == Layout::pawn_files(8).place(Color::White, Type::Rook, 0, 0).place(
                Color::White,
                Type::Rook,
                2,
                0,
            ).place(Color::White, Type::Rook, 4, 0).place(Color::White, Type::Rook, 7, 0).place(
                Color::Black,
                Type::Rook,
                0,
                7,
            ).place(Color::Black, Type::Rook, 2, 7).place(Color::Black, Type::Rook, 4, 7).place(
                Color::Black,
                Type::Rook,
                7,
                7,
            ),
            r.wf(),
            r.root() is Some,
            r.root().unwrap().tree() == fresh_tree(Move { score: 0, action: Action::NoAction }),
            !r.stopped(),
    {
        let mut game = Board::new_pawn_game();
        game.put(Color::White, Type::Rook, 0, 0);
        game.put(Color::White, Type::Rook, 2, 0);
        game.put(Color::White, Type::Rook, 4, 0);
        game.put(Color::White, Type::Rook, 7, 0);
        game.put(Color::Black, Type::Rook, 0, 7);
        game.put(Color::Black, Type::Rook, 2, 7);
        game.put(Color::Black, Type::Rook, 4, 7);
        game.put(Color::Black, Type::Rook, 7, 7);
        game
    }

    /// A board with the eight pawns of each side on their starting squares.
    pub fn new_pawn_game() -> (r: Board)
        ensures
            r@ == Layout::pawn_files(8),
            r.wf(),
            r.root() is Some,
            r.root().unwrap().tree() == fresh_tree(Move { score: 0, action: Action::NoAction }),
            !r.stopped(),
            r@.history.len() == 0,
            r@.used_white == 8,
            r@.used_black == 8,
            potential_upto(r@.white, 16) == 7440,
            potential_upto(r@.black, 16) == 7440,
            forall|i: int, j: int|
                inside(i, j) ==> ((#[trigger] r@.piece_at(i, j)) is Some) == (j == 1 || j == 6),
    {
        let mut game = Board::new_empty_game();
        proof {
            game.lemma_empty();
        }
        let mut i: i8 = 0;
        while i < 8
            invariant
                0 <= i <= 8,
                game@ == Layout::pawn_files(i as int),
                game.wf(),
                game.root() is Some,
                game.root().unwrap().tree() == fresh_tree(
                    Move { score: 0, action: Action::NoAction },
                ),
                !game.stopped(),
                game@.history.len() == 0,
                game@.used_white == i,
                game@.used_black == i,
                potential_upto(game@.white, 16) == 930 * i,
                potential_upto(game@.black, 16) == 930 * i,
                forall|x: int, y: int|
                    inside(x, y) ==> ((#[trigger] game@.piece_at(x, y)) is Some) == ((y == 1 || y
                        == 6) && x < i),
            decreases 8 - i,
        {
            game.put(Color::White, Type::Pawn, i, 1);
            game.put(Color::Black, Type::Pawn, i, 6);
            i += 1;
        }
        game
    }

    /// A board with one pawn against two.
    pub fn new_single_pawn_game() -> (r: Board)
        ensures
            r@ == Layout::empty().place(Color::White, Type::Pawn, 4, 4).place(
                Color::Black,
                Type::Pawn,
                5,
                5,
            ).place(Color::Black, Type::Pawn, 7, 5),
            r.wf(),
            r.root() is Some,
            r.root().unwrap().tree() == fresh_tree(Move { score: 0, action: Action::NoAction }),
            !r.stopped(),
    {
        let mut game = Board::new_empty_game();
        proof {
            game.lemma_empty();
        }
        game.put(Color::White, Type::Pawn, 4, 4);
        game.put(Color::Black, Type::Pawn, 5, 5);
        game.put(Color::Black, Type::Pawn, 7, 5);
        game
    }

    /// The move of the side to move that leads from one square to another:
    /// the first of its moves that does, where castling counts as the move
    /// of the king by two squares.
    #[verifier::loop_isolation(false)]
    pub fn move_from_position(&mut self, x1: i8, y1: i8, x2: i8, y2: i8) -> (r: Option<Move>)
        requires
            old(self)@.sound(),
        ensures
            r == old(self)@.move_between(x1 as int, y1 as int, x2 as int, y2 as int),
            final(self)@ == old(self)@,
            final(self).root() == old(self).root(),
            final(self).stopped() == old(self).stopped(),
    {
        if x1 < 0 || x1 > 7 {
            return None;
        }
        if y1 < 0 || y1 > 7 {
            return None;
        }
        if x2 < 0 || x2 > 7 {
            return None;
        }
        if y2 < 0 || y2 > 7 {
            return None;
        }
        let color = self.current_color();
        let legal_moves = self.collect_all_moves(color, false, false);
        let start = Position::new(x1, y1);
        let goal = Position::new(x2, y2);
        let ghost moves = self@.all_moves(color, false, false);
        let y: i8 = if color == Color::White {
            0
        } else {
            7
        };
        let n = legal_moves.len();
        let mut i: usize = 0;
        while i < n
            invariant
                0 <= i <= n,
                n == legal_moves@.len(),
                appended(Seq::empty(), legal_moves@, moves),
                start == square(x1 as int, y1 as int),
                goal == square(x2 as int, y2 as int),
                y == back_rank(color),
                first_fitting(moves, start, goal, color, i as int) == first_fitting(
                    moves,
                    start,
                    goal,
                    color,
                    0,
                ),
            decreases n - i,
        {
            let m = legal_moves[i].m;
            proof {
                assert(crate::candidates::fresh(legal_moves@[0 + i], moves[i as int]));
            }
            let hit = match m.action {
                Action::Move { from, to } => from.position == start && to.position == goal,
                Action::Capture { piece, target } => piece.position == start && target.position == goal,
                Action::Promote { old_piece, new_piece } => old_piece.position == start
                    && new_piece.position == goal,
                Action::CaptureAndPromote { .. } => false,
                Action::CastleKingSide => start == Position::new(4, y) && goal == Position::new(6, y),
                Action::CastleQueenSide => start == Position::new(4, y) && goal == Position::new(2, y),
                Action::NoAction => false,
            };
            if hit {
                return Some(m);
            }
            i += 1;
        }
        None
    }

    /// Whether a move given as four characters, such as `e2e4`, is a move of
    /// the side to move: the files and ranks of the square it starts from and
    /// of the square it leads to.
    pub fn parse_move(&mut self, msg: &String) -> (r: bool)
        requires
            old(self)@.sound(),
        ensures
            r == old(self)@.names_move(vstd::utf8::encode_utf8(msg@)),
            final(self)@ == old(self)@,
            final(self).root() == old(self).root(),
            final(self).stopped() == old(self).stopped(),
    {
        let bytes = msg.as_str().as_bytes();
        if bytes.len() < 4 {
            return false;
        }
        let x1: i16 = bytes[0] as i16 - 97;
        let y1: i16 = bytes[1] as i16 - 49;
        let x2: i16 = bytes[2] as i16 - 97;
        let y2: i16 = bytes[3] as i16 - 49;
        if x1 < 0 || x1 > 7 || y1 < 0 || y1 > 7 || x2 < 0 || x2 > 7 || y2 < 0 || y2 > 7 {
            return false;
        }
        self.move_from_position(x1 as i8, y1 as i8, x2 as i8, y2 as i8).is_some()
    }

    /// Four hashes of the position: of the cells of the first two files, of
    /// the first four, of the first six and of all eight. Each cell shifts
    /// the hash by nine bits and adds the color and the type of its piece;
    /// what is shifted beyond 64 bits is lost.
    pub fn position_hash(&self) -> (r: (u64, u64, u64, u64))
        ensures
            r.0 == hash_upto(self@.cells, 16),
            r.1 == hash_upto(self@.cells, 32),
            r.2 == hash_upto(self@.cells, 48),
            r.3 == hash_upto(self@.cells, 64),
    {
        let mut value: u64 = 0;
        let mut v1: u64 = 0;
        let mut v2: u64 = 0;
        let mut v3: u64 = 0;
        let mut x: usize = 0;
        while x < 8
            invariant
                0 <= x <= 8,
                value == hash_upto(self@.cells, 8 * x),
                x >= 2 ==> v1 == hash_upto(self@.cells, 16),
                x >= 4 ==> v2 == hash_upto(self@.cells, 32),
                x >= 6 ==> v3 == hash_upto(self@.cells, 48),
            decreases 8 - x,
        {
            let mut y: usize = 0;
            while y < 8
                invariant
                    0 <= y <= 8,
                    0 <= x < 8,
                    value == hash_upto(self@.cells, 8 * x + y),
                decreases 8 - y,
            {
                let add: u64 = match self.cells[x][y].piece {
                    Some(piece) => {
                        let side: u64 = if piece.color == Color::White {
                            1
                        } else {
                            0
                        };
                        let kind: u64 = match piece.t {
                            Type::Pawn => 0,
                            Type::Bishop => 1,
                            Type::Knight => 2,
                            Type::Rook => 3,
                            Type::Queen => 4,
                            Type::King => 5,
                        };
                        side + kind
                    },
                    None => 0,
                };
                value = value.wrapping_mul(16).wrapping_mul(32).wrapping_add(add);
                y += 1;
            }
            x += 1;
            if x == 2 {
                v1 = value;
            }
            if x == 4 {
                v2 = value;
            }
            if x == 6 {
                v3 = value;
            }
        }
        (v1, v2, v3, value)
    }
}

/// How deep a search goes that is asked for by a command.
pub const COMPUTE_DEPTH: i32 = 8;

/// A board that follows a game from the commands it is sent.
impl Board {
    /// What the board does on a command, and what it answers; no answer
    /// means that the board is to be let go. A move is played and
    /// acknowledged; one that cannot be made on the board is answered by
    /// `NoValidMove` and changes nothing. The last move is taken back and
    /// acknowledged; where there is none, the answer is `NoValidMove`. On
    /// `Compute` the board searches for its best move and answers with it,
    /// or with `NoValidMove` if the search found none. Before that search
    /// it asks whether a command is waiting, and goes on as `respond_told`
    /// says for the answer. The search is that of `find_best_move` with
    /// `COMPUTE_DEPTH`.
    pub fn respond(&mut self, command: Command, rx: &Receiver<Command>) -> (r: Option<Response>)
        requires
            old(self).wf(),
        ensures
            final(self).wf(),
            match command {
                Command::Stop => {
                    &&& r is None
                    &&& final(self)@ == old(self)@
                    &&& final(self).root() == old(self).root()
                    &&& final(self).stopped() == old(self).stopped()
                },
                Command::MakeMove(m) => if old(self)@.can_make(m) {
                    &&& r == Some(Response::Ack)
                    &&& final(self)@ == old(self)@.push(m)
                    &&& final(self).root() is Some
                    &&& final(self).root().unwrap().tree() == next_root(old(self).root(), m)
                    &&& final(self).stopped() == old(self).stopped()
                } else {
                    &&& r == Some(Response::NoValidMove)
                    &&& final(self)@ == old(self)@
                    &&& final(self).root() == old(self).root()
                    &&& final(self).stopped() == old(self).stopped()
                },
                Command::Undo => {
                    &&& final(self).root() == old(self).root()
                    &&& final(self).stopped() == old(self).stopped()
                    &&& if old(self)@.history.len() > 0 {
                        r == Some(Response::Ack) && final(self)@ == old(self)@.pop()
                    } else {
                        r == Some(Response::NoValidMove) && final(self)@ == old(self)@
                    }
                },
                Command::Compute => {
                    &&& final(self)@ == old(self)@
                    &&& final(self).root() is Some
                    &&& exists|k: int|
                        {
                            &&& 0 <= k < COMPUTE_DEPTH
                            &&& r == Some(
                                answer_for(
                                    #[trigger] old(self)@.found(root_tree(old(self).root()), k),
                                ),
                            )
                            &&& !final(self).stopped() ==> {
                                &&& k == COMPUTE_DEPTH - 1
                                &&& final(self).root().unwrap().tree() == old(self)@.deepen(
                                    root_tree(old(self).root()),
                                    k,
                                )
                            }
                            &&& k == 0 ==> {
                                &&& final(self).stopped()
                                &&& final(self).root().unwrap().tree() == old(self)@.deepen(
                                    root_tree(old(self).root()),
                                    1,
                                ) || final(self).root().unwrap().tree()
                                    == old(self)@.explore_known(
                                    1,
                                    -i16::MAX,
                                    i16::MAX as int,
                                    root_tree(old(self).root()),
                                    false,
                                ).1
                            }
                        }
                    &&& exists|polls: int|
                        0 <= polls && #[trigger] old(self)@.sought_asking(
                            polls,
                            COMPUTE_DEPTH as int,
                            root_tree(old(self).root()),
                            move_found(r),
                            final(self).root().unwrap().tree(),
                            final(self).stopped(),
                        )
                },
            },
    {
        let ghost start = self@;
        let ghost first = root_tree(self.root());
        let ghost searching = command is Compute;
        let waiting = match command {
            Command::Compute => command_waiting(rx),
            _ => false,
        };
        let r = self.respond_told(waiting, command, rx);
        proof {
            if searching {
                let tree = self.root().unwrap().tree();
                if waiting {
                    start.lemma_seek_told_at_once(COMPUTE_DEPTH as int, first);
                } else {
                    let polls = choose|polls: int|
                        0 <= polls && #[trigger] start.sought(
                            false,
                            polls,
                            COMPUTE_DEPTH as int,
                            first,
                            move_found(r),
                            tree,
                            self.stopped(),
                        );
                    start.lemma_seek_asked(
                        polls,
                        COMPUTE_DEPTH as int,
                        first,
                        move_found(r),
                        tree,
                        self.stopped(),
                    );
                }
            }
        }
        r
    }

    /// What the board does on a command and what it answers, given whether
    /// another command was waiting when a search asked for by `Compute`
    /// began. If one was, the search finds no move and the answer is
    /// `NoValidMove`. The search is that of `find_best_move_told` with
    /// `COMPUTE_DEPTH`.
    pub fn respond_told(&mut self, waiting: bool, command: Command, rx: &Receiver<Command>) -> (r:
        Option<Response>)
        requires
            old(self).wf(),
        ensures
            final(self).wf(),
            match command {
                Command::Stop => {
                    &&& r is None
                    &&& final(self)@ == old(self)@
                    &&& final(self).root() == old(self).root()
                    &&& final(self).stopped() == old(self).stopped()
                },
                Command::MakeMove(m) => if old(self)@.can_make(m) {
                    &&& r == Some(Response::Ack)
                    &&& final(self)@ == old(self)@.push(m)
                    &&& final(self).root() is Some
                    &&& final(self).root().unwrap().tree() == next_root(old(self).root(), m)
                    &&& final(self).stopped() == old(self).stopped()
                } else {
                    &&& r == Some(Response::NoValidMove)
                    &&& final(self)@ == old(self)@
                    &&& final(self).root() == old(self).root()
                    &&& final(self).stopped() == old(self).stopped()
                },
                Command::Undo => {
                    &&& final(self).root() == old(self).root()
                    &&& final(self).stopped() == old(self).stopped()
                    &&& if old(self)@.history.len() > 0 {
                        r == Some(Response::Ack) && final(self)@ == old(self)@.pop()
                    } else {
                        r == Some(Response::NoValidMove) && final(self)@ == old(self)@
                    }
                },
                Command::Compute => {
                    &&& final(self)@ == old(self)@
                    &&& final(self).root() is Some
                    &&& waiting ==> {
                        &&& r == Some(Response::NoValidMove)
                        &&& final(self).stopped()
                        &&& final(self).root().unwrap().tree() == old(self)@.explore_known(
                            1,
                            -i16::MAX,
                            i16::MAX as int,
                            root_tree(old(self).root()),
                            false,
                        ).1
                    }
                    &&& exists|k: int|
                        {
                            &&& 0 <= k < COMPUTE_DEPTH
                            &&& r == Some(
                                answer_for(
                                    #[trigger] old(self)@.found(root_tree(old(self).root()), k),
                                ),
                            )
                            &&& !final(self).stopped() ==> {
                                &&& k == COMPUTE_DEPTH - 1
                                &&& final(self).root().unwrap().tree() == old(self)@.deepen(
                                    root_tree(old(self).root()),
                                    k,
                                )
                            }
                            &&& !waiting && k == 0 ==> {
                                &&& final(self).stopped()
                                &&& final(self).root().unwrap().tree() == old(self)@.deepen(
                                    root_tree(old(self).root()),
                                    1,
                                )
                            }
                        }
                    &&& exists|polls: int|
                        0 <= polls && #[trigger] old(self)@.sought(
                            waiting,
                            polls,
                            COMPUTE_DEPTH as int,
                            root_tree(old(self).root()),
                            move_found(r),
                            final(self).root().unwrap().tree(),
                            final(self).stopped(),
                        )
                },
            },
    {
        match command {
            Command::Stop => None,
            Command::MakeMove(m) => {
                if self.can_make(&m) {
                    self.make_move_root(m);
                    self.push_move(m);
                    Some(Response::Ack)
                } else {
                    Some(Response::NoValidMove)
                }
            },
            Command::Undo => {
                if self.depth() > 0 {
                    self.pop_move();
                    Some(Response::Ack)
                } else {
                    Some(Response::NoValidMove)
                }
            },
            Command::Compute => {
                match self.find_best_move_told(waiting, COMPUTE_DEPTH, rx) {
                    Some(m) => Some(Response::FoundMove(m)),
                    None => Some(Response::NoValidMove),
                }
            },
        }
    }
}

/// The move that an answer holds, if it holds one.
pub open spec fn move_found(answer: Option<Response>) -> Option<Move> {
    match answer {
        Some(Response::FoundMove(m)) => Some(m),
        _ => None,
    }
}

/// The answer to a search: the move it found, or that it found none.
pub open spec fn answer_for(found: Option<Move>) -> Response {
    match found {
        Some(m) => Response::FoundMove(m),
        None => Response::NoValidMove,
    }
}

} // verus!
