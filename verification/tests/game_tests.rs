use chess_engine::board2::{
    Action, Board, Color, Move, MoveFlags, Piece, PieceBoard, PieceList, PieceRef, Position, Type,
};
use chess_engine::game::Game;
use chess_engine::search::PLY_CAPACITY;

fn moves_of(board: &Board, color: Color) -> Vec<Move> {
    let mut buffer = vec![Move::none(); 1_000];
    let count = board.insert_all_moves(color, &mut buffer[0..]);
    buffer.truncate(count);
    buffer
}

/// A full search without pruning over the moves in the order in which the
/// game tries them: the first move of the best value, with that value.
fn minimax(game: &mut Game, depth: i32, parent: &Move) -> Move {
    if let Action::Capture { target } | Action::CaptureAndPromote { target, .. } = parent.action {
        if game.board().piece_from_ref(target).t() == Type::King {
            return Move::new_evaluate(game.evaluate_position());
        }
    }
    if depth == 0 {
        return Move::new_evaluate(game.evaluate_position());
    }
    let turn = game.turn();
    let mut moves: Vec<Move> = game
        .get_all_moves(turn)
        .into_iter()
        .filter(|m| game.board().is_playable(m))
        .collect();
    if moves.is_empty() {
        return Move::new_evaluate(game.evaluate_position());
    }
    game.sort_moves(&mut moves[0..]);
    let mut best = Move::new_evaluate(-i32::MAX);
    for m in moves {
        game.push_move(m);
        let reply = minimax(game, depth - 1, &m);
        game.pop_move();
        let value = -reply.score;
        if value > best.score {
            best = m;
            best.score = value;
        }
    }
    best
}

#[test]
fn promotion_to_queen_on_the_last_rank() {
    let mut board = Board::new();
    board.add_new_piece(Color::White, Type::Pawn, 1, 6);
    let moves = moves_of(&board, Color::White);
    assert_eq!(moves.len(), 1);
    assert_eq!(
        moves[0].action,
        Action::Promote { t: Type::Queen, end: Position::new(1, 7) }
    );
}

#[test]
fn capture_with_promotion_beside_the_straight_promotion() {
    let mut board = Board::new();
    board.add_new_piece(Color::White, Type::Pawn, 1, 6);
    board.add_new_piece(Color::Black, Type::Rook, 0, 7);
    let target = board.ref_at(Position::new(0, 7));
    let moves = moves_of(&board, Color::White);
    assert_eq!(moves.len(), 2);
    assert_eq!(
        moves[0].action,
        Action::Promote { t: Type::Queen, end: Position::new(1, 7) }
    );
    assert_eq!(
        moves[1].action,
        Action::CaptureAndPromote { target, t: Type::Queen }
    );
}

#[test]
fn capture_with_promotion_when_the_way_ahead_is_blocked() {
    let mut board = Board::new();
    board.add_new_piece(Color::White, Type::Pawn, 1, 6);
    board.add_new_piece(Color::Black, Type::Rook, 0, 7);
    board.add_new_piece(Color::Black, Type::Rook, 1, 7);
    let target = board.ref_at(Position::new(0, 7));
    let moves = moves_of(&board, Color::White);
    assert_eq!(moves.len(), 1);
    assert_eq!(
        moves[0].action,
        Action::CaptureAndPromote { target, t: Type::Queen }
    );
}

#[test]
fn black_pawn_promotes_on_the_first_rank() {
    let mut board = Board::new();
    board.add_new_piece(Color::Black, Type::Pawn, 6, 1);
    let moves = moves_of(&board, Color::Black);
    assert_eq!(moves.len(), 1);
    assert_eq!(
        moves[0].action,
        Action::Promote { t: Type::Queen, end: Position::new(6, 0) }
    );
}

#[test]
fn pawn_steps_twice_only_from_its_starting_rank() {
    let mut board = Board::new();
    board.add_new_piece(Color::White, Type::Pawn, 3, 1);
    board.add_new_piece(Color::White, Type::Pawn, 5, 2);
    let moves = moves_of(&board, Color::White);
    assert_eq!(moves.len(), 3);
    assert_eq!(
        moves[0].action,
        Action::Move { start: Position::new(3, 1), end: Position::new(3, 2) }
    );
    assert_eq!(
        moves[1].action,
        Action::Move { start: Position::new(3, 1), end: Position::new(3, 3) }
    );
    assert_eq!(
        moves[2].action,
        Action::Move { start: Position::new(5, 2), end: Position::new(5, 3) }
    );
}

#[test]
fn bishop_reaches_the_edge_of_the_board() {
    let mut board = Board::new();
    board.add_new_piece(Color::White, Type::Bishop, 0, 0);
    let moves = moves_of(&board, Color::White);
    assert_eq!(moves.len(), 7);
    assert_eq!(
        moves[6].action,
        Action::Move { start: Position::new(0, 0), end: Position::new(7, 7) }
    );
}

#[test]
fn rook_ray_stops_at_the_first_piece() {
    let mut board = Board::new();
    board.add_new_piece(Color::White, Type::Rook, 0, 0);
    board.add_new_piece(Color::White, Type::Pawn, 0, 2);
    board.add_new_piece(Color::Black, Type::Pawn, 3, 0);
    let target = board.ref_at(Position::new(3, 0));
    let moves: Vec<Move> = moves_of(&board, Color::White)
        .into_iter()
        .filter(|m| m.piece_ref == PieceRef::new(Color::White, 0))
        .collect();
    // b1, c1, takes d1, a2
    assert_eq!(moves.len(), 4);
    assert_eq!(moves[2].action, Action::Capture { target });
    assert_eq!(
        moves[2].flags,
        MoveFlags::queen_rook_moved()
    );
    assert_eq!(
        moves[3].action,
        Action::Move { start: Position::new(0, 0), end: Position::new(0, 1) }
    );
}

#[test]
fn knight_in_the_corner_has_two_moves() {
    let mut board = Board::new();
    board.add_new_piece(Color::Black, Type::Knight, 7, 7);
    let moves = moves_of(&board, Color::Black);
    assert_eq!(moves.len(), 2);
    assert_eq!(
        moves[0].action,
        Action::Move { start: Position::new(7, 7), end: Position::new(5, 6) }
    );
    assert_eq!(
        moves[1].action,
        Action::Move { start: Position::new(7, 7), end: Position::new(6, 5) }
    );
}

#[test]
fn queen_moves_carry_no_flags() {
    let mut board = Board::new();
    board.add_new_piece(Color::White, Type::Queen, 0, 0);
    let moves = moves_of(&board, Color::White);
    assert_eq!(moves.len(), 21);
    assert!(moves.iter().all(|m| m.flags == MoveFlags::empty()));
}

#[test]
fn every_generated_move_is_undone_by_its_reversal() {
    let mut game = Game::new_empty();
    game.add_piece(Color::White, Type::King, 4, 0);
    game.add_piece(Color::White, Type::Rook, 0, 0);
    game.add_piece(Color::White, Type::Rook, 7, 0);
    game.add_piece(Color::White, Type::Pawn, 1, 6);
    game.add_piece(Color::White, Type::Knight, 3, 3);
    game.add_piece(Color::White, Type::Bishop, 5, 3);
    game.add_piece(Color::Black, Type::Rook, 0, 7);
    game.add_piece(Color::Black, Type::Queen, 4, 5);
    game.add_piece(Color::Black, Type::King, 4, 7);
    game.add_piece(Color::Black, Type::Pawn, 2, 1);
    for color in [Color::White, Color::Black] {
        let mut board = game.board().clone();
        let before = board.clone();
        let moves = moves_of(&board, color);
        assert!(!moves.is_empty());
        for m in moves {
            if !board.is_playable(&m) {
                // Black has no rook on h8: its castling to the king's side
                // is generated all the same.
                assert_eq!(color, Color::Black);
                assert_eq!(m.action, Action::Castle);
                assert!(m.flags.contains(MoveFlags::king_rook_moved()));
                continue;
            }
            board.make_move(&m);
            assert!(board.assert_consistency());
            assert!(board != before);
            board.revert_move(&m);
            assert!(board.assert_consistency());
            assert!(board == before);
        }
    }
}

#[test]
fn playing_first_moves_and_taking_them_all_back_restores_the_board() {
    let mut game = Game::new_classic_game();
    let before = game.board().clone();
    let mut played = 0;
    for _ in 0..60 {
        let turn = game.turn();
        let moves: Vec<Move> = game
            .get_all_moves(turn)
            .into_iter()
            .filter(|m| game.board().is_playable(m))
            .collect();
        if moves.is_empty() {
            break;
        }
        game.push_move(moves[0]);
        played += 1;
    }
    assert_eq!(played, 60);
    assert!(*game.board() != before);
    let mut popped = 0;
    while game.pop_move().is_some() {
        popped += 1;
    }
    assert_eq!(popped, played);
    assert!(*game.board() == before);
    assert_eq!(game.turn(), Color::White);
}

#[test]
fn castling_without_the_rook_is_generated_but_not_playable() {
    let mut board = Board::new();
    board.add_new_piece(Color::White, Type::King, 4, 0);
    let moves = moves_of(&board, Color::White);
    let castles: Vec<Move> = moves
        .into_iter()
        .filter(|m| matches!(m.action, Action::Castle))
        .collect();
    assert_eq!(castles.len(), 2);
    assert!(!board.is_playable(&castles[0]));
    assert!(!board.is_playable(&castles[1]));
    assert!(!board.can_castle(castles[0].piece_ref, castles[0].flags));
}

#[test]
fn a_king_move_uses_up_the_right_to_castle() {
    let mut game = Game::new_empty();
    game.add_piece(Color::White, Type::King, 4, 0);
    game.add_piece(Color::White, Type::Rook, 0, 0);
    game.add_piece(Color::Black, Type::King, 4, 7);
    let step = game
        .get_all_moves(Color::White)
        .into_iter()
        .find(|m| {
            m.action == Action::Move { start: Position::new(4, 0), end: Position::new(4, 1) }
        })
        .unwrap();
    assert_eq!(step.flags, MoveFlags::king_moved());
    game.push_move(step);
    assert_eq!(game.board().move_flags(Color::White), MoveFlags::king_moved());
    assert!(game
        .get_all_moves(Color::White)
        .iter()
        .all(|m| !matches!(m.action, Action::Castle)));
    // A second king move carries no flag: the right is used up already.
    assert!(game
        .get_all_moves(Color::White)
        .iter()
        .filter(|m| m.piece_ref == PieceRef::new(Color::White, 0))
        .all(|m| m.flags == MoveFlags::empty()));
    game.pop_move();
    assert_eq!(game.board().move_flags(Color::White), MoveFlags::empty());
    assert!(game
        .get_all_moves(Color::White)
        .iter()
        .any(|m| matches!(m.action, Action::Castle)));
}

#[test]
fn evaluation_changes_sign_with_the_side_to_move() {
    let mut game = Game::new_empty();
    game.add_piece(Color::White, Type::Queen, 3, 0);
    game.add_piece(Color::White, Type::Pawn, 0, 1);
    game.add_piece(Color::Black, Type::Rook, 7, 7);
    assert_eq!(game.turn(), Color::White);
    assert_eq!(game.evaluate_position(), 900 + 100 - 500);
    let quiet = game.get_all_moves(Color::White)[0];
    assert!(matches!(quiet.action, Action::Move { .. }));
    game.push_move(quiet);
    assert_eq!(game.turn(), Color::Black);
    assert_eq!(game.evaluate_position(), -(900 + 100 - 500));
}

#[test]
fn evaluation_counts_only_pieces_in_play() {
    let mut game = Game::new_empty();
    game.add_piece(Color::White, Type::Rook, 0, 0);
    game.add_piece(Color::Black, Type::Knight, 0, 5);
    game.add_piece(Color::Black, Type::King, 7, 7);
    assert_eq!(game.evaluate_position(), 500 - 300 - 10000);
    let capture = game
        .get_all_moves(Color::White)
        .into_iter()
        .find(|m| matches!(m.action, Action::Capture { .. }))
        .unwrap();
    game.push_move(capture);
    assert_eq!(game.evaluate_position(), -(500 - 10000));
}

#[test]
fn move_values_order_captures_promotions_and_castling() {
    let mut game = Game::new_empty();
    game.add_piece(Color::White, Type::Pawn, 1, 6);
    game.add_piece(Color::White, Type::King, 4, 0);
    game.add_piece(Color::White, Type::Rook, 7, 0);
    game.add_piece(Color::White, Type::Pawn, 3, 3);
    game.add_piece(Color::Black, Type::Queen, 0, 7);
    game.add_piece(Color::Black, Type::Rook, 4, 4);
    let moves = game.get_all_moves(Color::White);
    let value_of = |wanted: &dyn Fn(&Move) -> bool| {
        let m = moves.iter().find(|m| wanted(m)).unwrap();
        game.evaluate_move_value(m)
    };
    assert_eq!(value_of(&|m| matches!(m.action, Action::Move { .. })), 0);
    assert_eq!(value_of(&|m| matches!(m.action, Action::Promote { .. })), 900);
    assert_eq!(
        value_of(&|m| matches!(m.action, Action::CaptureAndPromote { .. })),
        900 / 8 - 100 / 16 + 900
    );
    assert_eq!(
        value_of(&|m| matches!(m.action, Action::Capture { .. })),
        500 / 8 - 100 / 16
    );
    assert_eq!(value_of(&|m| matches!(m.action, Action::Castle)), 1000);
    assert_eq!(game.evaluate_move_value(&Move::new_evaluate(-17)), -17);
    assert_eq!(game.evaluate_move_value(&Move::none()), 0);
}

#[test]
fn sorting_puts_the_best_first_and_keeps_equal_moves_in_order() {
    let mut game = Game::new_empty();
    game.add_piece(Color::White, Type::Pawn, 1, 6);
    game.add_piece(Color::White, Type::King, 4, 0);
    game.add_piece(Color::White, Type::Rook, 7, 0);
    game.add_piece(Color::Black, Type::Queen, 0, 7);
    let mut moves = game.get_all_moves(Color::White);
    let quiet_before: Vec<Move> = moves
        .iter()
        .filter(|m| matches!(m.action, Action::Move { .. }))
        .copied()
        .collect();
    game.sort_moves(&mut moves[0..]);
    let values: Vec<i32> = moves.iter().map(|m| game.evaluate_move_value(m)).collect();
    assert!(values.windows(2).all(|w| w[0] >= w[1]));
    assert_eq!(values[0], 900 / 8 - 100 / 16 + 900);
    assert_eq!(values[1], 1000);
    assert_eq!(values[2], 1000);
    assert_eq!(values[3], 900);
    assert!(moves[1].flags.contains(MoveFlags::queen_rook_moved()));
    assert!(moves[2].flags.contains(MoveFlags::king_rook_moved()));
    let quiet_after: Vec<Move> = moves
        .iter()
        .filter(|m| matches!(m.action, Action::Move { .. }))
        .copied()
        .collect();
    assert_eq!(quiet_before, quiet_after);
}

#[test]
fn search_takes_the_hanging_queen() {
    let mut game = Game::new_empty();
    game.add_piece(Color::White, Type::Rook, 0, 0);
    game.add_piece(Color::White, Type::King, 7, 0);
    game.add_piece(Color::Black, Type::Queen, 0, 6);
    game.add_piece(Color::Black, Type::King, 7, 7);
    let before = game.board().clone();
    let mut buffer = vec![Move::none(); 3 * PLY_CAPACITY];
    let best = game.find_best_move(3, &mut buffer[0..]).unwrap();
    let queen = game.board().ref_at(Position::new(0, 6));
    assert_eq!(best.action, Action::Capture { target: queen });
    assert_eq!(best.piece_ref, PieceRef::new(Color::White, 0));
    assert_eq!(best.score, 500);
    assert!(*game.board() == before);
    assert_eq!(game.turn(), Color::White);
}

#[test]
fn search_at_depth_nothing_is_the_evaluation() {
    let mut game = Game::new_pawn_only();
    game.add_piece(Color::White, Type::Queen, 3, 0);
    let mut buffer = vec![Move::none(); 10];
    let mut parent = Move::new_evaluate(0);
    let (best, count) = game.search(
        0,
        Move::new_evaluate(-i32::MAX),
        Move::new_evaluate(i32::MAX),
        &mut parent,
        &mut buffer[0..],
    );
    assert_eq!(best.action, Action::Evaluate);
    assert_eq!(best.score, 900);
    assert_eq!(count, 0);
    // There is no move to report at depth nothing.
    assert_eq!(game.find_best_move(0, &mut buffer[0..]), None);
}

#[test]
fn search_without_moves_is_the_evaluation() {
    let mut game = Game::new_empty();
    game.add_piece(Color::Black, Type::Pawn, 3, 3);
    let mut buffer = vec![Move::none(); 100];
    let mut parent = Move::new_evaluate(0);
    let (best, _) = game.search(
        2,
        Move::new_evaluate(-i32::MAX),
        Move::new_evaluate(i32::MAX),
        &mut parent,
        &mut buffer[0..],
    );
    assert_eq!(best.action, Action::Evaluate);
    assert_eq!(best.score, -100);
}

#[test]
fn no_move_is_found_where_the_side_to_move_has_none() {
    let mut empty = Game::new_empty();
    let before = empty.board().clone();
    let mut buffer = vec![Move::none(); 100];
    assert_eq!(empty.find_best_move(1, &mut buffer[0..]), None);
    assert!(*empty.board() == before);
    let mut game = Game::new_empty();
    game.add_piece(Color::Black, Type::Pawn, 3, 3);
    assert_eq!(game.find_best_move(2, &mut buffer[0..]), None);
    // A lone king whose castlings cannot be played has its steps.
    let mut king = Game::new_empty();
    king.add_piece(Color::White, Type::King, 4, 0);
    let found = king.find_best_move(1, &mut buffer[0..]).unwrap();
    assert!(matches!(found.action, Action::Move { .. }));
}

#[test]
fn a_buffer_of_what_the_search_needs_is_enough() {
    // Three plies with two pawns: never more than four moves for a ply.
    let mut game = Game::new_empty();
    game.add_piece(Color::White, Type::Pawn, 0, 1);
    game.add_piece(Color::Black, Type::Pawn, 7, 6);
    let mut buffer = vec![Move::none(); 6];
    let found = game.find_best_move(3, &mut buffer[0..]).unwrap();
    assert_eq!(
        found.action,
        Action::Move { start: Position::new(0, 1), end: Position::new(0, 2) }
    );
    assert_eq!(found.score, 0);
    let generated = game.get_all_moves(Color::White);
    assert!(generated.iter().any(|m| m.action == found.action
        && m.piece_ref == found.piece_ref
        && m.flags == found.flags));
}

#[test]
fn search_stops_once_a_king_was_taken() {
    let mut game = Game::new_empty();
    game.add_piece(Color::White, Type::Rook, 0, 7);
    game.add_piece(Color::White, Type::Pawn, 0, 1);
    game.add_piece(Color::Black, Type::King, 7, 7);
    game.add_piece(Color::Black, Type::Rook, 0, 6);
    let king = game.board().ref_at(Position::new(7, 7));
    let mut buffer = vec![Move::none(); 4 * PLY_CAPACITY];
    let best = game.find_best_move(4, &mut buffer[0..]).unwrap();
    assert_eq!(best.action, Action::Capture { target: king });
    // The position after the king was taken is not searched further: the
    // score is its evaluation, white's rook and pawn against black's rook.
    assert_eq!(best.score, 500 + 100 - 500);
}

#[test]
fn pruning_finds_what_a_full_search_finds() {
    let mut games = Vec::new();
    games.push(Game::new_pawn_only());
    let mut small = Game::new_empty();
    small.add_piece(Color::White, Type::King, 4, 0);
    small.add_piece(Color::White, Type::Rook, 0, 0);
    small.add_piece(Color::White, Type::Pawn, 2, 5);
    small.add_piece(Color::Black, Type::King, 4, 7);
    small.add_piece(Color::Black, Type::Knight, 3, 6);
    small.add_piece(Color::Black, Type::Bishop, 1, 4);
    games.push(small);
    for mut game in games {
        for depth in 1..4 {
            let before = game.board().clone();
            let mut buffer = vec![Move::none(); 3 * PLY_CAPACITY];
            let found = game.find_best_move(depth, &mut buffer[0..]);
            let full = minimax(&mut game, depth, &Move::new_evaluate(0));
            assert_eq!(found, Some(full));
            assert!(*game.board() == before);
        }
    }
}

/// The value of a position in a search over every generated move, in the
/// order in which the moves are generated.
fn full_value(game: &mut Game, depth: i32, parent: &Move) -> i32 {
    if let Action::Capture { target } | Action::CaptureAndPromote { target, .. } = parent.action {
        if game.board().piece_from_ref(target).t() == Type::King {
            return game.evaluate_position();
        }
    }
    let turn = game.turn();
    let moves = game.get_all_moves(turn);
    if depth == 0 || moves.is_empty() {
        return game.evaluate_position();
    }
    let mut best = -i32::MAX;
    for m in moves {
        assert!(game.board().is_playable(&m));
        game.push_move(m);
        best = best.max(-full_value(game, depth - 1, &m));
        game.pop_move();
    }
    best
}

#[test]
fn pruning_finds_the_value_of_a_search_over_every_move() {
    let mut games = Vec::new();
    games.push(Game::new_pawn_only());
    let mut small = Game::new_empty();
    // Without kings no castling is generated: every move can be played.
    small.add_piece(Color::White, Type::Knight, 1, 0);
    small.add_piece(Color::White, Type::Rook, 0, 0);
    small.add_piece(Color::White, Type::Pawn, 2, 5);
    small.add_piece(Color::Black, Type::Bishop, 1, 4);
    small.add_piece(Color::Black, Type::Knight, 3, 6);
    small.add_piece(Color::Black, Type::Pawn, 6, 6);
    games.push(small);
    for mut game in games {
        for depth in 1..4 {
            let mut buffer = vec![Move::none(); 3 * PLY_CAPACITY];
            let found = game.find_best_move(depth, &mut buffer[0..]).unwrap();
            assert_eq!(found.score, full_value(&mut game, depth, &Move::new_evaluate(0)));
        }
    }
}

#[test]
fn search_counts_the_moves_it_generates() {
    let mut game = Game::new_empty();
    game.add_piece(Color::White, Type::Pawn, 0, 1);
    game.add_piece(Color::Black, Type::Pawn, 7, 6);
    let mut buffer = vec![Move::none(); 2 * PLY_CAPACITY];
    let mut parent = Move::new_evaluate(0);
    let (best, count) = game.search(
        2,
        Move::new_evaluate(-i32::MAX),
        Move::new_evaluate(i32::MAX),
        &mut parent,
        &mut buffer[0..],
    );
    // Two moves for White, and two for Black after each of them.
    assert_eq!(count, 2 + 2 + 2);
    assert_eq!(best.score, 0);
    assert_eq!(
        best.action,
        Action::Move { start: Position::new(0, 1), end: Position::new(0, 2) }
    );
}

#[test]
fn board_prints_as_a_grid() {
    let mut board = Board::new();
    board.add_new_piece(Color::White, Type::King, 4, 0);
    board.add_new_piece(Color::Black, Type::Queen, 3, 7);
    board.add_new_piece(Color::Black, Type::Knight, 0, 2);
    let text = board.render();
    let lines: Vec<&str> = text.split('\n').collect();
    let border = "  +---+---+---+---+---+---+---+---+";
    assert_eq!(lines.len(), 19);
    assert_eq!(lines[0], border);
    assert_eq!(lines[1], "8 |   |   |   | q |   |   |   |   |");
    assert_eq!(lines[2], border);
    assert_eq!(lines[3], "7 |   |   |   |   |   |   |   |   |");
    assert_eq!(lines[11], "3 | n |   |   |   |   |   |   |   |");
    assert_eq!(lines[15], "1 |   |   |   |   | K |   |   |   |");
    assert_eq!(lines[16], border);
    assert_eq!(lines[17], "    a   b   c   d   e   f   g   h");
    assert_eq!(lines[18], "");
}

#[test]
fn moves_and_squares_have_names() {
    assert_eq!(Position::new(0, 0).to_text(), "a1");
    assert_eq!(Position::new(7, 7).to_text(), "h8");
    assert_eq!(Position::new(4, 1).to_text(), "e2");
    let mut out: Vec<char> = vec!['>'];
    Position::new(2, 5).write_name(&mut out);
    assert_eq!(out, vec!['>', 'c', '6']);
    let m = Move::new_move(
        PieceRef::new(Color::White, 0),
        Position::new(4, 1),
        Position::new(4, 3),
        MoveFlags::empty(),
    );
    assert_eq!(m.to_text(), "e2 e4");
    assert_eq!(Move::none().to_text(), "<None>");
    assert_eq!(Move::new_castle(PieceRef::new(Color::White, 0), MoveFlags::full()).to_text(), "");
    let rook = Piece::new(Color::White, Type::Rook, Position::new(3, 4));
    assert_eq!(rook.to_text(), "White Rook (d5)");
    let knight = Piece::new(Color::Black, Type::Knight, Position::new(6, 7));
    assert_eq!(knight.to_text(), "Black Knight (g8)");
    assert_eq!(Color::White.name(), "White");
    assert_eq!(Color::Black.name(), "Black");
    assert_eq!(Type::Knight.name(), "Knight");
    assert_eq!(Type::King.name(), "King");
}

#[test]
fn positions_encode_file_and_rank_in_one_index() {
    let p = Position::new(3, 4);
    assert_eq!(p.index(), 35);
    assert_eq!(p.x(), 3);
    assert_eq!(p.y(), 4);
    assert_eq!(p.xy(), (3, 4));
    assert!(p.valid());
    assert_eq!(Position::zero().index(), 0);
    assert_eq!(Position::zero(), Position::new(0, 0));
    assert_eq!(p.dp(-3, 3), Position::new(0, 7));
    assert_eq!(Position::new(7, 7).index(), 63);
}

#[test]
fn pieces_pack_type_color_and_activity() {
    let mut piece = Piece::new(Color::Black, Type::Knight, Position::new(6, 7));
    assert_eq!(piece.t(), Type::Knight);
    assert_eq!(piece.color(), Color::Black);
    assert!(!piece.active());
    assert_eq!(piece.pos(), Position::new(6, 7));
    piece.set_active(true);
    assert!(piece.active());
    assert_eq!(piece.t(), Type::Knight);
    assert_eq!(piece.color(), Color::Black);
    piece.set_type(Type::Queen);
    assert_eq!(piece.t(), Type::Queen);
    assert!(piece.active());
    assert_eq!(piece.char(), 'q');
    piece.set_position(Position::new(0, 0));
    assert_eq!(piece.position, Position::new(0, 0));
    piece.set_active(false);
    assert!(!piece.active());
    assert_eq!(piece.color(), Color::Black);
    let null = Piece::null();
    assert!(!null.active());
    assert_eq!(null.position, Position::zero());
    for t in [Type::Pawn, Type::Rook, Type::Knight, Type::Bishop, Type::Queen, Type::King] {
        assert_eq!(Type::from_code(t.code()), t);
        assert_eq!(Piece::new(Color::White, t, Position::zero()).t(), t);
    }
    assert_eq!(Type::Pawn.value(), 100);
    assert_eq!(Type::Bishop.value(), 300);
    assert_eq!(Type::Knight.value(), 300);
    assert_eq!(Type::Rook.value(), 500);
    assert_eq!(Type::Queen.value(), 900);
    assert_eq!(Type::King.value(), 10000);
}

#[test]
fn piece_references_pack_slot_color_and_activity() {
    let mut r = PieceRef::new(Color::Black, 5);
    assert_eq!(r.index(), 21);
    assert_eq!(r.color(), Color::Black);
    assert!(r.active());
    assert!(r.valid());
    r.set_active(false);
    assert!(!r.active());
    assert_eq!(r.index(), 21);
    r.set_active(true);
    assert_eq!(r, PieceRef::new(Color::Black, 5));
    let w = PieceRef::new(Color::White, 15);
    assert_eq!(w.index(), 15);
    assert_eq!(w.color(), Color::White);
    let null = PieceRef::null();
    assert!(!null.active());
    assert_eq!(null.index(), 0);
}

#[test]
fn piece_list_keeps_the_sides_apart() {
    let mut list = PieceList::new();
    let a = list.add_new_piece(Piece::new(Color::White, Type::Pawn, Position::new(0, 1)));
    let b = list.add_new_piece(Piece::new(Color::Black, Type::Pawn, Position::new(0, 6)));
    let c = list.add_new_piece(Piece::new(Color::White, Type::Rook, Position::new(0, 0)));
    assert_eq!(a, PieceRef::new(Color::White, 0));
    assert_eq!(b, PieceRef::new(Color::Black, 0));
    assert_eq!(c, PieceRef::new(Color::White, 1));
    assert_eq!(list.white().len(), 16);
    assert_eq!(list.black().len(), 16);
    assert_eq!(list.white()[1].t(), Type::Rook);
    assert_eq!(list.black()[0].position, Position::new(0, 6));
    assert_eq!(list.white()[2], Piece::null());
    let squares = PieceBoard::new();
    assert_eq!(squares.piece_refs().len(), 64);
    assert!(squares.piece_refs().iter().all(|r| !r.active()));
}

#[test]
fn move_flags_combine_as_sets() {
    let king = MoveFlags::king_moved();
    let both = king.union(MoveFlags::queen_rook_moved());
    assert!(both.contains(king));
    assert!(both.contains(MoveFlags::queen_rook_moved()));
    assert!(!both.contains(MoveFlags::king_rook_moved()));
    assert!(!both.contains(MoveFlags::full()));
    assert!(both.contains(MoveFlags::empty()));
    assert_eq!(both.toggle(king), MoveFlags::queen_rook_moved());
    assert_eq!(both.toggle(both), MoveFlags::empty());
    let mut flags = MoveFlags::empty();
    flags.set(MoveFlags::king_rook_moved(), true);
    assert_eq!(flags, MoveFlags::king_rook_moved());
    flags.set(MoveFlags::full(), true);
    assert_eq!(flags, MoveFlags::full());
    flags.set(king, false);
    assert_eq!(flags, MoveFlags::king_rook_moved().union(MoveFlags::queen_rook_moved()));
}

#[test]
fn move_constructors_fill_in_action_and_flags() {
    let r = PieceRef::new(Color::White, 3);
    let t = PieceRef::new(Color::Black, 4);
    let flags = MoveFlags::king_moved();
    let capture = Move::new_capture(r, t, flags);
    assert_eq!(*capture.action(), Action::Capture { target: t });
    assert_eq!(*capture.flags(), flags);
    assert_eq!(capture.piece_ref, r);
    assert_eq!(capture.score, 0);
    let promote = Move::new_promote(r, Type::Queen, Position::new(1, 7));
    assert_eq!(promote.action, Action::Promote { t: Type::Queen, end: Position::new(1, 7) });
    assert_eq!(promote.flags, MoveFlags::empty());
    let both = Move::new_capture_and_promote(r, t, Type::Queen);
    assert_eq!(both.action, Action::CaptureAndPromote { target: t, t: Type::Queen });
    let castle = Move::new_castle(r, flags);
    assert_eq!(castle.action, Action::Castle);
    assert_eq!(castle.flags, flags);
    let eval = Move::new_evaluate(42);
    assert_eq!(eval.action, Action::Evaluate);
    assert_eq!(eval.score, 42);
    assert_eq!((-eval).score, -42);
    assert_eq!((-eval).action, Action::Evaluate);
    assert_eq!(Move::none().action, Action::NoAction);
    assert_eq!(Move::none().piece_ref, PieceRef::null());
}

#[test]
fn consistency_check_sees_a_square_that_lost_its_piece() {
    let mut board = Board::new();
    board.add_new_piece(Color::White, Type::Rook, 0, 0);
    board.add_new_piece(Color::Black, Type::Rook, 0, 0);
    // The black rook took the square of the white rook, which still claims it.
    assert!(!board.assert_consistency());
    let mut sound = Board::new();
    sound.add_new_piece(Color::White, Type::Rook, 0, 0);
    sound.add_new_piece(Color::Black, Type::Rook, 0, 1);
    assert!(sound.assert_consistency());
}

#[test]
fn pawn_only_game_holds_sixteen_pawns() {
    let game = Game::new_pawn_only();
    for x in 0..8 {
        let white = game.board().piece_at_xy(x, 1).unwrap();
        assert_eq!(white.t(), Type::Pawn);
        assert_eq!(white.color(), Color::White);
        let black = game.board().piece_at_xy(x, 6).unwrap();
        assert_eq!(black.t(), Type::Pawn);
        assert_eq!(black.color(), Color::Black);
        assert!(game.board().piece_at_xy(x, 0).is_none());
        assert!(game.board().piece_at_xy(x, 4).is_none());
    }
    assert_eq!(game.board().white_pieces().iter().filter(|p| p.active()).count(), 8);
    assert_eq!(game.board().black_pieces().iter().filter(|p| p.active()).count(), 8);
}
