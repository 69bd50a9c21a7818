//! A game: a board, the moves played on it, and the search for the next one.

use crate::board2::{on_board, Action, Board, Color, Move, Piece, PieceRef, Position, Type};
use crate::model::BoardView;
use crate::pruning::{highest, lowest, same_move};
use crate::search::{saturate, PLY_CAPACITY};
use core::ops::Neg;
use vstd::prelude::*;

verus! {

/// What a game holds: the board as it stands, and the moves that led to it,
/// oldest first.
pub struct GameView {
    pub board: BoardView,
    pub history: Seq<Move>,
}

/// Whether every move of a history can be taken back in turn, the last one
/// first, from the given board.
pub open spec fn replayable(board: BoardView, history: Seq<Move>) -> bool
    decreases history.len(),
{
    if history.len() == 0 {
        true
    } else {
        &&& board.can_revert(history.last())
        &&& board.revert(history.last()).wf()
        &&& replayable(board.revert(history.last()), history.drop_last())
    }
}

/// The board after the moves of a history, played in order from `board`.
pub open spec fn play_all(board: BoardView, moves: Seq<Move>) -> BoardView
    decreases moves.len(),
{
    if moves.len() == 0 {
        board
    } else {
        play_all(board, moves.drop_last()).apply(moves.last())
    }
}

/// The board after the moves of a history were taken back, the last first.
pub open spec fn take_back_all(board: BoardView, moves: Seq<Move>) -> BoardView
    decreases moves.len(),
{
    if moves.len() == 0 {
        board
    } else {
        take_back_all(board.revert(moves.last()), moves.drop_last())
    }
}

/// Whether each move of the sequence can be played on the board that the
/// moves before it lead to.
pub open spec fn playable_in_turn(board: BoardView, moves: Seq<Move>) -> bool
    decreases moves.len(),
{
    if moves.len() == 0 {
        true
    } else {
        &&& playable_in_turn(board, moves.drop_last())
        &&& play_all(board, moves.drop_last()).playable(moves.last())
    }
}

/// Playing moves keeps the board well formed.
pub proof fn lemma_play_all_wf(board: BoardView, moves: Seq<Move>)
    requires
        board.wf(),
        playable_in_turn(board, moves),
    ensures
        play_all(board, moves).wf(),
    decreases moves.len(),
{
    if moves.len() > 0 {
        lemma_play_all_wf(board, moves.drop_last());
        play_all(board, moves.drop_last()).lemma_apply_wf(moves.last());
    }
}

/// Whatever moves are played from a well-formed board, each one playable in
/// its turn: taking them all back, the last first, restores the board they
/// were played from.
pub proof fn lemma_full_game_reversible(board: BoardView, moves: Seq<Move>)
    requires
        board.wf(),
        playable_in_turn(board, moves),
    ensures
        take_back_all(play_all(board, moves), moves) == board,
        replayable(play_all(board, moves), moves),
    decreases moves.len(),
{
    if moves.len() > 0 {
        let before = play_all(board, moves.drop_last());
        lemma_play_all_wf(board, moves.drop_last());
        before.lemma_apply_wf(moves.last());
        before.lemma_round_trip(moves.last());
        lemma_full_game_reversible(board, moves.drop_last());
    }
}

impl GameView {
    /// The side to move: White at the start and after every second move.
    pub open spec fn turn(self) -> Color {
        if self.history.len() % 2 == 0 {
            Color::White
        } else {
            Color::Black
        }
    }

    /// The board is well formed and every move played can be taken back.
    pub open spec fn wf(self) -> bool {
        &&& self.board.wf()
        &&& replayable(self.board, self.history)
    }
}

/// The board after the pawns of the first `n` files were put on it, file by
/// file: White's on the second rank, then Black's on the seventh.
pub open spec fn pawn_rows(board: BoardView, n: int) -> BoardView
    decreases n,
{
    if n <= 0 {
        board
    } else {
        pawn_rows(board, n - 1).place(Color::White, Type::Pawn, Position::at(n - 1, 1)).place(
            Color::Black,
            Type::Pawn,
            Position::at(n - 1, 6),
        )
    }
}

/// The starting position of a game of chess, piece by piece in the order in
/// which the pieces take their slots: the pawns, then rooks, knights,
/// bishops, queens and kings.
pub open spec fn classic_position() -> BoardView {
    pawn_rows(BoardView::empty(), 8).place(Color::White, Type::Rook, Position::at(0, 0)).place(
        Color::White,
        Type::Rook,
        Position::at(7, 0),
    ).place(Color::Black, Type::Rook, Position::at(0, 7)).place(
        Color::Black,
        Type::Rook,
        Position::at(7, 7),
    ).place(Color::White, Type::Knight, Position::at(1, 0)).place(
        Color::White,
        Type::Knight,
        Position::at(6, 0),
    ).place(Color::Black, Type::Knight, Position::at(1, 7)).place(
        Color::Black,
        Type::Knight,
        Position::at(6, 7),
    ).place(Color::White, Type::Bishop, Position::at(2, 0)).place(
        Color::White,
        Type::Bishop,
        Position::at(5, 0),
    ).place(Color::Black, Type::Bishop, Position::at(2, 7)).place(
        Color::Black,
        Type::Bishop,
        Position::at(5, 7),
    ).place(Color::White, Type::Queen, Position::at(3, 0)).place(
        Color::Black,
        Type::Queen,
        Position::at(3, 7),
    ).place(Color::White, Type::King, Position::at(4, 0)).place(
        Color::Black,
        Type::King,
        Position::at(4, 7),
    )
}

/// A game of two players.
#[derive(Clone)]
pub struct Game {
    board: Board,
    move_stack: Vec<Move>,
}

impl Game {
    pub closed spec fn view(&self) -> GameView {
        GameView { board: self.board@, history: self.move_stack@ }
    }

    pub open spec fn wf(&self) -> bool {
        self@.wf()
    }

    /// The board of a game always has 64 squares and 32 slots.
    pub proof fn lemma_view_shape(&self)
        ensures
            self@.board.squares.len() == 64,
            self@.board.pieces.len() == 32,
    {
        self.board.lemma_view_shape();
    }

    /// A game on an empty board.
    pub fn new_empty() -> (r: Game)
        ensures
            r@.board == BoardView::empty(),
            r@.history.len() == 0,
            r.wf(),
            forall|x: int, y: int| on_board(x, y) ==> !#[trigger] r@.board.occupied(x, y),
    {
        Game { board: Board::new(), move_stack: Vec::with_capacity(100) }
    }

    /// A game with the eight pawns of each side on their starting squares.
    pub fn new_pawn_only() -> (r: Game)
        ensures
            r@.board == pawn_rows(BoardView::empty(), 8),
            r@.history.len() == 0,
            r.wf(),
            r@.board.used_white == 8,
            r@.board.used_black == 8,
            forall|i: int, j: int|
                on_board(i, j) ==> #[trigger] r@.board.occupied(i, j) == (j == 1 || j == 6),
    {
        let mut game = Game::new_empty();
        let mut x: i8 = 0;
        while x < 8
            invariant
                0 <= x <= 8,
                game@.board == pawn_rows(BoardView::empty(), x as int),
                game@.history.len() == 0,
                game.wf(),
                game@.board.used_white == x,
                game@.board.used_black == x,
                forall|i: int, j: int|
                    on_board(i, j) ==> #[trigger] game@.board.occupied(i, j) == ((j == 1 || j == 6)
                        && i < x),
            decreases 8 - x,
        {
            game.add_piece(Color::White, Type::Pawn, x, 1);
            game.add_piece(Color::Black, Type::Pawn, x, 6);
            x += 1;
        }
        game
    }

    /// A game with all thirty-two pieces on their starting squares.
    pub fn new_classic_game() -> (r: Game)
        ensures
            r@.board == classic_position(),
            r@.history.len() == 0,
            r.wf(),
    {
        let mut game = Game::new_pawn_only();
        game.add_piece(Color::White, Type::Rook, 0, 0);
        game.add_piece(Color::White, Type::Rook, 7, 0);
        game.add_piece(Color::Black, Type::Rook, 0, 7);
        game.add_piece(Color::Black, Type::Rook, 7, 7);
        game.add_piece(Color::White, Type::Knight, 1, 0);
        game.add_piece(Color::White, Type::Knight, 6, 0);
        game.add_piece(Color::Black, Type::Knight, 1, 7);
        game.add_piece(Color::Black, Type::Knight, 6, 7);
        game.add_piece(Color::White, Type::Bishop, 2, 0);
        game.add_piece(Color::White, Type::Bishop, 5, 0);
        game.add_piece(Color::Black, Type::Bishop, 2, 7);
        game.add_piece(Color::Black, Type::Bishop, 5, 7);
        game.add_piece(Color::White, Type::Queen, 3, 0);
        game.add_piece(Color::Black, Type::Queen, 3, 7);
        game.add_piece(Color::White, Type::King, 4, 0);
        game.add_piece(Color::Black, Type::King, 4, 7);
        game
    }

    /// Plays a move: it is made on the board and put on the history.
    pub fn push_move(&mut self, m: Move)
        requires
            old(self).wf(),
            old(self)@.board.playable(m),
        ensures
            final(self)@.board == old(self)@.board.apply(m),
            final(self)@.history == old(self)@.history.push(m),
            final(self).wf(),
    {
        proof {
            self@.board.lemma_apply_wf(m);
            self@.board.lemma_round_trip(m);
            assert(self@.history.push(m).drop_last() =~= self@.history);
        }
        self.move_stack.push(m);
        self.board.make_move(&m);
    }

    /// Takes back the last move played, if there is one, and returns it.
    pub fn pop_move(&mut self) -> (r: Option<Move>)
        requires
            old(self).wf(),
        ensures
            final(self).wf(),
            old(self)@.history.len() == 0 ==> r.is_none() && final(self)@ == old(self)@,
            old(self)@.history.len() > 0 ==> {
                &&& r == Some(old(self)@.history.last())
                &&& final(self)@.board == old(self)@.board.revert(old(self)@.history.last())
                &&& final(self)@.history == old(self)@.history.drop_last()
            },
    {
        let maybe_move = self.move_stack.pop();
        if let Some(m) = &maybe_move {
            self.board.revert_move(m);
        }
        maybe_move
    }

    /// Puts a new piece on the board. On a game that has not begun, a piece
    /// put on an empty square leaves the game well formed.
    pub fn add_piece(&mut self, color: Color, t: Type, x: i8, y: i8)
        requires
            on_board(x as int, y as int),
            old(self)@.board.well_shaped(),
            old(self)@.board.used(color) < 16,
        ensures
            final(self)@.board == old(self)@.board.place(color, t, Position::at(x as int, y as int)),
            final(self)@.history == old(self)@.history,
            final(self)@.board.well_shaped(),
            old(self).wf() && old(self)@.history.len() == 0 && !old(self)@.board.occupied(
                x as int,
                y as int,
            ) ==> final(self).wf(),
            final(self)@.board.used(color) == old(self)@.board.used(color) + 1,
            final(self)@.board.used(color.spec_other()) == old(self)@.board.used(color.spec_other()),
            final(self)@.board.occupied(x as int, y as int),
            forall|i: int, j: int|
                on_board(i, j) && !(i == x && j == y) ==> #[trigger] final(self)@.board.occupied(i, j)
                    == old(self)@.board.occupied(i, j),
    {
        broadcast use Position::lemma_at;
        broadcast use PieceRef::lemma_make;

        self.board.add_new_piece(color, t, x, y);
    }

    /// All moves of a side on the board as it stands.
    pub fn get_all_moves(&self, color: Color) -> (r: Vec<Move>)
        requires
            self.wf(),
        ensures
            r@ == self@.board.all_moves(color),
    {
        let mut moves: Vec<Move> = vec![Move::none(); 1000];
        proof {
            self@.board.lemma_all_moves_bound(color);
        }
        let count = self.board.insert_all_moves(color, moves.as_mut_slice());
        moves.truncate(count);
        assert(moves@ =~= self@.board.all_moves(color));
        moves
    }

    /// The side to move.
    pub fn turn(&self) -> (r: Color)
        ensures
            r == self@.turn(),
    {
        if self.move_stack.len() % 2 == 0 {
            Color::White
        } else {
            Color::Black
        }
    }

    pub fn board(&self) -> (r: &Board)
        ensures
            r@ == self@.board,
    {
        &self.board
    }

    /// The material of the pieces in play among the sixteen of one side.
    fn material(pieces: &[Piece]) -> (sum: i32)
        requires
            pieces@.len() == 16,
        ensures
            sum == material_of(pieces@, 16),
            0 <= sum <= 160000,
    {
        let mut sum: i32 = 0;
        let mut i: usize = 0;
        while i < 16
            invariant
                0 <= i <= 16,
                pieces@.len() == 16,
                sum == material_of(pieces@, i as int),
                0 <= sum <= 10000 * i,
            decreases 16 - i,
        {
            let piece = pieces[i];
            if piece.active() {
                sum += piece.t().value();
            }
            i += 1;
        }
        sum
    }

    /// The static evaluation of the position from the point of view of the
    /// side to move: its material minus the other side's.
    pub fn evaluate_position(&mut self) -> (r: i32)
        ensures
            r == old(self)@.board.evaluation(old(self)@.turn()),
            -160000 <= r <= 160000,
            *final(self) == *old(self),
    {
        proof {
            self.board.lemma_view_shape();
            lemma_material_of(self@.board, Color::White, 16);
            lemma_material_of(self@.board, Color::Black, 16);
        }
        let black_value = Game::material(self.board.black_pieces());
        let white_value = Game::material(self.board.white_pieces());
        if self.turn() == Color::White {
            white_value - black_value
        } else {
            black_value - white_value
        }
    }

    /// The cheap estimate by which moves are ordered.
    pub fn evaluate_move_value(&self, m: &Move) -> (r: i32)
        ensures
            r == self@.board.move_value(*m),
    {
        match m.action {
            Action::Move { .. } => 0,
            Action::Capture { target } => {
                self.board.piece_from_ref(target).t().value() / 8 - self.board.piece_from_ref(
                    m.piece_ref,
                ).t().value() / 16
            },
            Action::CaptureAndPromote { target, t } => {
                self.board.piece_from_ref(target).t().value() / 8 - self.board.piece_from_ref(
                    m.piece_ref,
                ).t().value() / 16 + t.value()
            },
            Action::Evaluate => m.score,
            Action::Promote { t, .. } => t.value(),
            Action::Castle => 1000,
            Action::NoAction => 0,
        }
    }

    /// Orders moves by falling value. Moves of equal value keep their order.
    #[verifier::rlimit(50)]
    pub fn sort_moves(&self, moves: &mut [Move])
        ensures
            final(moves)@ == self@.board.sorted_by_value(old(moves)@),
            final(moves)@.len() == old(moves)@.len(),
    {
        let n = moves.len();
        let ghost board = self@.board;
        let mut i: usize = 0;
        while i < n
            invariant
                0 <= i <= n,
                n == old(moves)@.len(),
                moves@.len() == n,
                board == self@.board,
                moves@.subrange(0, i as int) == board.sorted_by_value(
                    old(moves)@.subrange(0, i as int),
                ),
                moves@.subrange(i as int, n as int) == old(moves)@.subrange(i as int, n as int),
            decreases n - i,
        {
            let m = moves[i];
            let value = self.evaluate_move_value(&m);
            let ghost sorted = moves@.subrange(0, i as int);
            let ghost inputs = old(moves)@;
            proof {
                assert(inputs.subrange(0, i + 1).drop_last() =~= inputs.subrange(0, i as int));
                assert(inputs.subrange(0, i + 1).last() == m) by {
                    assert(moves@.subrange(i as int, n as int)[0] == inputs.subrange(
                        i as int,
                        n as int,
                    )[0]);
                }
                assert(sorted.subrange(0, i as int) =~= sorted);
                assert(sorted.subrange(i as int, i as int) =~= Seq::<Move>::empty());
                assert(board.insert_by_value(sorted, m) =~= board.insert_by_value(sorted, m)
                    + Seq::<Move>::empty());
                assert forall|k: int| i < k < n implies moves@[k] == inputs[k] by {
                    assert(moves@.subrange(i as int, n as int)[k - i] == inputs.subrange(
                        i as int,
                        n as int,
                    )[k - i]);
                }
                assert(moves@.subrange(i + 1, n as int) =~= inputs.subrange(i + 1, n as int));
            }
            let mut j: usize = i;
            while j > 0 && self.evaluate_move_value(&moves[j - 1]) < value
                invariant
                    0 <= j <= i < n,
                    moves@.len() == n,
                    sorted.len() == i,
                    board == self@.board,
                    value == board.move_value(m),
                    board.insert_by_value(sorted, m) == board.insert_by_value(
                        sorted.subrange(0, j as int),
                        m,
                    ) + sorted.subrange(j as int, i as int),
                    forall|k: int| 0 <= k < j ==> moves@[k] == sorted[k],
                    forall|k: int| j < k <= i ==> moves@[k] == sorted[k - 1],
                    moves@.subrange(i + 1, n as int) == inputs.subrange(i + 1, n as int),
                decreases j,
            {
                let ghost prefix = sorted.subrange(0, j as int);
                proof {
                    assert(prefix.last() == sorted[j - 1]);
                    assert(prefix.drop_last() =~= sorted.subrange(0, j - 1));
                    assert(board.insert_by_value(prefix, m) == board.insert_by_value(
                        sorted.subrange(0, j - 1),
                        m,
                    ).push(sorted[j - 1]));
                    assert(board.insert_by_value(sorted.subrange(0, j - 1), m).push(sorted[j - 1])
                        + sorted.subrange(j as int, i as int) =~= board.insert_by_value(
                        sorted.subrange(0, j - 1),
                        m,
                    ) + sorted.subrange(j - 1, i as int));
                }
                let ghost before = moves@;
                moves[j] = moves[j - 1];
                proof {
                    assert(moves@.subrange(i + 1, n as int) =~= before.subrange(i + 1, n as int));
                }
                j -= 1;
            }
            let ghost before = moves@;
            moves[j] = m;
            proof {
                let prefix = sorted.subrange(0, j as int);
                assert(board.insert_by_value(prefix, m) == prefix.push(m)) by {
                    if j > 0 {
                        assert(prefix.last() == sorted[j - 1]);
                    }
                }
                assert(moves@.subrange(0, i + 1) =~= prefix.push(m) + sorted.subrange(
                    j as int,
                    i as int,
                ));
                assert(moves@.subrange(i + 1, n as int) =~= before.subrange(i + 1, n as int));
                assert(inputs.subrange(i + 1, n as int) =~= inputs.subrange(
                    i as int,
                    n as int,
                ).subrange(1, n - i));
            }
            i += 1;
        }
        proof {
            assert(moves@.subrange(0, n as int) =~= moves@);
            assert(old(moves)@.subrange(0, n as int) =~= old(moves)@);
        }
    }

    /// Searches for the best move of the side to move, `depth` plies deep.
    /// Finds none at depth nothing and where the side to move has no move to
    /// play; else one of the moves generated for that side, with the negamax
    /// value of the position as its score. The buffer must hold what the
    /// search needs: a window of `PLY_CAPACITY` moves for each ply is always
    /// enough.
    #[verifier::rlimit(50)]
    pub fn find_best_move(&mut self, depth: i32, buffer: &mut [Move]) -> (r: Option<Move>)
        requires
            old(self).wf(),
            0 <= depth,
            old(buffer)@.len() >= old(self)@.board.need(
                old(self)@.turn(),
                depth as int,
                lowest(),
                highest(),
                Move::spec_new_evaluate(0),
            ),
        ensures
            final(self)@ == old(self)@,
            final(self).wf(),
            final(buffer)@.len() == old(buffer)@.len(),
            r == if depth == 0 || old(self)@.board.playable_moves(old(self)@.turn()).len() == 0 {
                None
            } else {
                Some(
                    old(self)@.board.search(
                        old(self)@.turn(),
                        depth as int,
                        lowest(),
                        highest(),
                        Move::spec_new_evaluate(0),
                    ).0,
                )
            },
            r matches Some(m) ==> {
                &&& m.score == old(self)@.board.negamax(
                    old(self)@.turn(),
                    depth as int,
                    Move::spec_new_evaluate(0),
                )
                &&& exists|j: int|
                    0 <= j < old(self)@.board.all_moves(old(self)@.turn()).len() && same_move(
                        m,
                        #[trigger] old(self)@.board.all_moves(old(self)@.turn())[j],
                    ) && old(self)@.board.playable(
                        old(self)@.board.all_moves(old(self)@.turn())[j],
                    )
            },
    {
        let ghost board = self@.board;
        let ghost turn = self@.turn();
        let mut root_node = Move::new_evaluate(0);
        let (m, _count) = self.search(
            depth,
            Move::new_evaluate(-i32::MAX),
            Move::new_evaluate(i32::MAX),
            &mut root_node,
            buffer,
        );
        proof {
            if !board.is_leaf(turn, depth as int, Move::spec_new_evaluate(0)) {
                board.lemma_found_is_generated(turn, depth as int, Move::spec_new_evaluate(0));
                let j = choose|j: int|
                    0 <= j < board.all_moves(turn).len() && same_move(
                        m,
                        #[trigger] board.all_moves(turn)[j],
                    ) && board.playable(board.all_moves(turn)[j]);
                board.lemma_generated_sound(turn, j);
            }
        }
        match m.action {
            Action::Evaluate => None,
            _ => Some(m),
        }
    }

    /// The alpha-beta search of the position, `depth` plies deep, under the
    /// window from `alpha` to `beta`. `parent` is the move that led to the
    /// position. Returns the move found with its score, and the number of
    /// moves generated on the way. The game is left as it was found.
    #[verifier::loop_isolation(false)]
    #[verifier::rlimit(50)]
    pub fn search(
        &mut self,
        depth: i32,
        alpha: Move,
        beta: Move,
        parent: &mut Move,
        buffer: &mut [Move],
    ) -> (r: (Move, usize))
        requires
            old(self).wf(),
            0 <= depth,
            alpha.score > i32::MIN,
            beta.score > i32::MIN,
            old(buffer)@.len() >= old(self)@.board.need(
                old(self)@.turn(),
                depth as int,
                alpha,
                beta,
                *old(parent),
            ),
        ensures
            final(self)@ == old(self)@,
            final(self).wf(),
            *final(parent) == *old(parent),
            final(buffer)@.len() == old(buffer)@.len(),
            r.0 == old(self)@.board.search(
                old(self)@.turn(),
                depth as int,
                alpha,
                beta,
                *old(parent),
            ).0,
            r.1 == saturate(
                old(self)@.board.search(old(self)@.turn(), depth as int, alpha, beta, *old(parent)).1,
            ),
            old(self)@.board.search(old(self)@.turn(), depth as int, alpha, beta, *old(parent)).1
                >= 0,
            r.0.score > i32::MIN,
        decreases depth,
    {
        let ghost start = self@;
        let ghost board = self@.board;
        let ghost turn = self@.turn();
        let mut alpha = alpha;
        let king_taken = match parent.action {
            Action::Capture { target } => self.board.piece_from_ref(target).t() == Type::King,
            Action::CaptureAndPromote { target, .. } => self.board.piece_from_ref(target).t()
                == Type::King,
            _ => false,
        };
        if king_taken {
            return (Move::new_evaluate(self.evaluate_position()), 0);
        }
        if depth == 0 {
            return (Move::new_evaluate(self.evaluate_position()), 0);
        }
        proof {
            board.lemma_all_moves_bound(turn);
            board.lemma_need_from_bound(
                turn,
                depth as int,
                alpha,
                beta,
                board.ordered_moves(turn),
                0,
            );
        }
        let side = self.turn();
        let generated = self.board.insert_all_moves(side, buffer);
        proof {
            assert(buffer@.subrange(0, generated as int) =~= board.all_moves(turn));
        }
        let kept = self.keep_playable(buffer, generated);
        if kept == 0 {
            return (Move::new_evaluate(self.evaluate_position()), generated);
        }
        let (moves, rest) = buffer.split_at_mut(kept);
        self.sort_moves(moves);
        let ghost ordered = board.ordered_moves(turn);
        proof {
            board.lemma_ordered_playable(turn);
        }
        let ghost whole = board.search(turn, depth as int, alpha, beta, *parent);
        let mut count: usize = generated;
        let ghost mut exact: int = generated as int;
        let mut i: usize = 0;
        while i < kept
            invariant
                0 <= i <= kept <= generated <= PLY_CAPACITY,
                1 <= depth,
                self@ == start,
                self.wf(),
                start.board == board,
                start.turn() == turn,
                side == turn,
                moves@ == ordered,
                moves@.len() == kept,
                rest@.len() >= board.need_from(turn, depth as int, alpha, beta, ordered, i as int),
                rest@.len() + kept == old(buffer)@.len(),
                alpha.score > i32::MIN,
                beta.score > i32::MIN,
                count == saturate(exact),
                0 <= exact,
                board.search_from(turn, depth as int, alpha, beta, ordered, i as int, exact)
                    == whole,
            decreases kept - i,
        {
            let mut m = moves[i];
            proof {
                assert(board.playable(ordered[i as int]));
                board.lemma_round_trip(m);
                assert(start.history.push(m).drop_last() =~= start.history);
            }
            self.push_move(m);
            let (reply, more) = self.search(depth - 1, beta.neg(), alpha.neg(), &mut m, rest);
            let test_move = reply.neg();
            let ghost more_exact = board.apply(m).search(
                turn.spec_other(),
                depth - 1,
                beta.negated(),
                alpha.negated(),
                m,
            ).1;
            count = count.saturating_add(more);
            proof {
                exact = exact + more_exact;
            }
            self.pop_move();
            proof {
                assert(self@.board == board);
                assert(self@.history == start.history);
            }
            if test_move.score >= beta.score {
                return (beta, count);
            }
            if test_move.score > alpha.score {
                alpha = m;
                alpha.score = test_move.score;
            }
            i += 1;
        }
        (alpha, count)
    }

    /// Moves the playable ones among the first `n` moves of the buffer to its
    /// front, in their order, and returns how many there are.
    #[verifier::rlimit(50)]
    fn keep_playable(&self, buffer: &mut [Move], n: usize) -> (kept: usize)
        requires
            n <= old(buffer)@.len(),
        ensures
            kept <= n,
            final(buffer)@.len() == old(buffer)@.len(),
            final(buffer)@.subrange(0, kept as int) == self@.board.playable_among(
                old(buffer)@.subrange(0, n as int),
                n as int,
            ),
    {
        let ghost inputs = buffer@.subrange(0, n as int);
        let ghost board = self@.board;
        let mut kept: usize = 0;
        let mut j: usize = 0;
        while j < n
            invariant
                0 <= kept <= j <= n <= buffer@.len(),
                buffer@.len() == old(buffer)@.len(),
                board == self@.board,
                inputs == old(buffer)@.subrange(0, n as int),
                buffer@.subrange(0, kept as int) == board.playable_among(inputs, j as int),
                forall|k: int| j <= k < n ==> buffer@[k] == inputs[k],
            decreases n - j,
        {
            let m = buffer[j];
            if self.board.is_playable(&m) {
                let ghost before = buffer@;
                buffer[kept] = m;
                proof {
                    assert(buffer@.subrange(0, kept + 1) =~= before.subrange(0, kept as int).push(m));
                }
                kept += 1;
            }
            j += 1;
        }
        kept
    }
}

/// The material of the pieces in play among the first `n` of a sequence.
pub open spec fn material_of(pieces: Seq<Piece>, n: int) -> int
    decreases n,
{
    if n <= 0 {
        0
    } else {
        material_of(pieces, n - 1) + if pieces[n - 1]@.active {
            pieces[n - 1]@.kind.spec_value()
        } else {
            0
        }
    }
}

/// The material of a side's sixteen slots is the material of the side.
pub proof fn lemma_material_of(board: BoardView, color: Color, n: int)
    requires
        board.pieces.len() == 32,
        0 <= n <= 16,
    ensures
        material_of(board.pieces.subrange(16 * color.bit(), 16 * color.bit() + 16), n)
            == board.material_upto(color, n),
    decreases n,
{
    if n > 0 {
        lemma_material_of(board, color, n - 1);
    }
}

} // verus!
