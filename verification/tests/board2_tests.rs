use chess_engine::board2::{
    Action, Board, Color, Move, MoveFlags, Piece, PieceList, PieceRef, Position, Type,
};
use chess_engine::game::Game;
use rand::seq::SliceRandom;

#[test]
fn piece_list_add_piece() {
    let mut piece_list = PieceList::new();
    let piece = Piece::new(Color::Black, Type::Rook, Position::new(1, 1));
    let pref = piece_list.add_new_piece(piece);
    assert_eq!(pref.color(), piece.color());
    assert_eq!(*piece_list.get(pref), piece);
}

#[test]
fn add_black_piece() {
    let mut board = Board::new();
    let p = Position::new(1, 1);
    board.add_new_piece(Color::Black, Type::Rook, p.x(), p.y());

    let piece_ref = board.ref_at(p);
    assert!(piece_ref.active());
    assert_eq!(piece_ref.color(), Color::Black);

    assert!(board.piece_at(p).is_some());

    let piece = board.piece_at(p).unwrap();
    assert_eq!(piece.color(), Color::Black);
    assert_eq!(piece.t(), Type::Rook);
    assert_eq!(piece.position, p);
}

#[test]
fn white_castle() {
    let mut board = Board::new();
    let mut initial_buffer = vec![Move::none(); 1_000];
    board.add_new_piece(Color::White, Type::King, 4, 0);
    board.add_new_piece(Color::White, Type::Rook, 0, 0);
    board.add_new_piece(Color::White, Type::Rook, 7, 0);

    let count = board.insert_all_moves(Color::White, &mut initial_buffer[0..]);
    assert_eq!(count, 5 + 3 + 2 + 7 + 7 + 2);

    let moves: Vec<Move> = initial_buffer[0..count]
        .iter()
        .filter_map(|m| match m.action() {
            Action::Castle => Some(*m),
            _ => None,
        })
        .collect();

    assert_eq!(moves.len(), 2);

    let m1 = moves
        .iter()
        .find(|m| m.flags().contains(MoveFlags::queen_rook_moved()))
        .unwrap();
    let m2 = moves
        .iter()
        .find(|m| m.flags().contains(MoveFlags::king_rook_moved()))
        .unwrap();

    board.make_move(m1);
    assert_eq!(board.piece_at_xy(0, 0), None);
    assert_eq!(board.piece_at_xy(4, 0), None);
    assert!(board.piece_at_xy(2, 0).is_some());
    assert!(board.piece_at_xy(3, 0).is_some());
    assert_eq!(
        board.move_flags(Color::White),
        MoveFlags::king_moved().union(MoveFlags::queen_rook_moved())
    );

    board.revert_move(m1);
    assert!(board.piece_at_xy(0, 0).is_some());
    assert!(board.piece_at_xy(4, 0).is_some());
    assert!(board.piece_at_xy(2, 0).is_none());
    assert!(board.piece_at_xy(3, 0).is_none());
    assert_eq!(board.move_flags(Color::White), MoveFlags::empty());

    board.make_move(m2);
    assert_eq!(board.piece_at_xy(7, 0), None);
    assert_eq!(board.piece_at_xy(4, 0), None);
    assert!(board.piece_at_xy(6, 0).is_some());
    assert!(board.piece_at_xy(5, 0).is_some());
    assert_eq!(
        board.move_flags(Color::White),
        MoveFlags::king_moved().union(MoveFlags::king_rook_moved())
    );

    board.revert_move(m2);
    assert!(board.piece_at_xy(7, 0).is_some());
    assert!(board.piece_at_xy(4, 0).is_some());
    assert!(board.piece_at_xy(6, 0).is_none());
    assert!(board.piece_at_xy(5, 0).is_none());
    assert_eq!(board.move_flags(Color::White), MoveFlags::empty());
}

#[test]
fn move_piece() {
    let mut game = Game::new_empty();
    game.add_piece(Color::White, Type::Pawn, 1, 2);

    let moves = game.get_all_moves(Color::White);
    assert_eq!(moves.len(), 1);
    assert!(game.board().piece_at(Position::new(1, 2)).is_some());
    game.push_move(moves[0]);
    assert!(game.board().piece_at(Position::new(1, 2)).is_none());
    game.pop_move();
    assert!(game.board().piece_at(Position::new(1, 2)).is_some());
}

#[test]
fn capture_and_promote_piece() {
    let mut game = Game::new_empty();
    let start = Position::new(1, 6);
    let goal = Position::new(2, 7);
    game.add_piece(Color::White, Type::Pawn, 1, 7);
    game.add_piece(Color::White, Type::Pawn, start.x(), start.y());
    game.add_piece(Color::Black, Type::Pawn, goal.x(), goal.y());

    let piece1 = *game.board().piece_at(start).unwrap();
    let piece2 = *game.board().piece_at(goal).unwrap();

    let moves = game.get_all_moves(Color::White);
    assert_eq!(moves.len(), 1);
    assert!(game.board().piece_at(start).is_some());
    assert!(game.board().piece_at(goal).is_some());
    game.push_move(moves[0]);
    assert!(game.board().piece_at(start).is_none());
    assert!(game.board().piece_at(goal).is_some());
    assert_eq!(game.board().piece_at(goal).unwrap().t(), Type::Queen);
    game.pop_move();
    assert!(game.board().piece_at(start).is_some());
    assert!(game.board().piece_at(goal).is_some());
    assert_eq!(game.board().piece_at(start).unwrap().t(), Type::Pawn);

    assert_eq!(*game.board().piece_at(start).unwrap(), piece1);
    assert_eq!(*game.board().piece_at(goal).unwrap(), piece2);
}

#[test]
fn full_pawn_moves() {
    let mut game = Game::new_pawn_only();
    let mut initial_buffer = vec![Move::none(); 1_000];
    let board = game.board().clone();
    let count = game
        .board()
        .insert_all_moves(Color::White, &mut initial_buffer[0..]);
    assert_eq!(count, 16);

    let mut color = Color::White;

    let rng = &mut rand::thread_rng();

    // play for 100 moves max
    for _ in 0..100 {
        let count = game.board().insert_all_moves(color, &mut initial_buffer[0..]);
        if count == 0 {
            break;
        }
        let m = *initial_buffer[0..count].choose(rng).unwrap();
        assert!(game.board().is_playable(&m));
        game.push_move(m);
        assert!(game.board().assert_consistency());
        color = color.other();
    }

    while game.pop_move().is_some() {
        assert!(game.board().assert_consistency());
    }

    assert!(board == *game.board());
}

#[test]
fn classic_game_start() {
    let game = Game::new_classic_game();
    let mut initial_buffer = vec![Move::none(); 1_000];
    let count = game
        .board()
        .insert_all_moves(Color::White, &mut initial_buffer[0..]);
    assert_eq!(count, 20);
}

#[test]
fn classic_game_full() {
    for _ in 0..20 {
        let mut game = Game::new_classic_game();
        let mut initial_buffer = vec![Move::none(); 1_000];
        let board = game.board().clone();
        let count = game
            .board()
            .insert_all_moves(Color::White, &mut initial_buffer[0..]);
        assert_eq!(count, 20);

        let mut color = Color::White;

        let rng = &mut rand::thread_rng();

        // play for 1000 moves max
        for _ in 0..1000 {
            let count = game.board().insert_all_moves(color, &mut initial_buffer[0..]);
            if count == 0 {
                break;
            }

            // A castling move is generated from the castling rights and the
            // empty squares alone; it is played only where king and rook
            // stand ready for it.
            let moves: Vec<Move> = initial_buffer[0..count]
                .iter()
                .filter(|m| game.board().is_playable(m))
                .copied()
                .collect();
            if moves.is_empty() {
                break;
            }
            let m = if let Some(m) = moves.iter().find(|m| match m.action() {
                Action::Castle => true,
                _ => false,
            }) {
                *m
            } else {
                *moves.choose(rng).unwrap()
            };

            game.push_move(m);
            assert!(game.board().assert_consistency());
            color = color.other();
        }

        while game.pop_move().is_some() {
            assert!(game.board().assert_consistency());
        }

        assert!(board == *game.board());
    }
}

#[test]
fn create_piece1() {
    let rook1 = Piece::new(Color::White, Type::Rook, Position::new(3, 4));
    assert_eq!(rook1.t(), Type::Rook);
    assert_eq!(rook1.color(), Color::White);
    assert_eq!(rook1.position.to_text(), "d5");
}

#[test]
fn type_size() {
    assert_eq!(std::mem::size_of::<Piece>(), 2);
    assert_eq!(std::mem::size_of::<PieceRef>(), 1);
    assert_eq!(std::mem::size_of::<Position>(), 1);
}
