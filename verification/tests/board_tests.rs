use chess_engine::board::{Action, Board, Cell, Command, Move, MoveNode, Response};
use chess_engine::piece::{Color, Piece, Type};
use chess_engine::slotvec::StaticSlotVec;
use chess_engine::utils::Position;
use std::sync::mpsc::sync_channel;

fn moves_of(board: &Board, color: Color) -> Vec<Move> {
    board
        .collect_all_moves(color, false, false)
        .into_iter()
        .map(|node| node.m)
        .collect()
}

fn pieces_of(board: &Board) -> (Vec<Option<Piece>>, Vec<Option<Piece>>, Vec<Option<Piece>>) {
    let mut cells = Vec::new();
    for x in 0..8 {
        for y in 0..8 {
            cells.push(board.state()[x][y].piece);
        }
    }
    (cells, board.white_pieces().to_vec(), board.black_pieces().to_vec())
}

#[test]
fn starting_position_has_twenty_moves() {
    let board = Board::new_classic_game();
    assert_eq!(moves_of(&board, Color::White).len(), 20);
    assert_eq!(moves_of(&board, Color::Black).len(), 20);
    assert_eq!(board.collect_all_moves(Color::White, true, false).len(), 0);
}

#[test]
fn king_and_two_rooks_have_twenty_six_moves() {
    let mut board = Board::new_empty_game();
    board.add_new_piece(Color::White, Type::King, 4, 0);
    board.add_new_piece(Color::White, Type::Rook, 0, 0);
    board.add_new_piece(Color::White, Type::Rook, 7, 0);
    let moves = moves_of(&board, Color::White);
    assert_eq!(moves.len(), 26);
    let castles: Vec<&Move> = moves
        .iter()
        .filter(|m| matches!(m.action, Action::CastleKingSide | Action::CastleQueenSide))
        .collect();
    assert_eq!(castles.len(), 2);
    assert_eq!(castles[0].action, Action::CastleKingSide);
    assert_eq!(castles[1].action, Action::CastleQueenSide);
}

#[test]
fn pawn_on_the_seventh_rank_promotes_and_does_not_step() {
    let mut board = Board::new_empty_game();
    board.add_new_piece(Color::White, Type::Pawn, 1, 6);
    let pawn = board.piece_at(&Position::new(1, 6)).unwrap();
    let moves = moves_of(&board, Color::White);
    assert_eq!(moves.len(), 1);
    assert_eq!(moves[0], Move::promote(pawn, Position::new(1, 7), Type::Queen));
    match moves[0].action {
        Action::Promote { old_piece, new_piece } => {
            assert_eq!(old_piece.t, Type::Pawn);
            assert_eq!(new_piece.t, Type::Queen);
            assert_eq!(new_piece.position, Position::new(1, 7));
            assert_eq!(new_piece.index, old_piece.index);
            assert_eq!(new_piece.color, Color::White);
        }
        _ => unreachable!(),
    }
    // A promotion is generated even where only captures are asked for.
    assert_eq!(board.collect_all_moves(Color::White, true, false).len(), 1);
}

#[test]
fn pawn_controls_the_squares_diagonally_ahead() {
    let mut board = Board::new_empty_game();
    board.add_new_piece(Color::Black, Type::Pawn, 3, 4);
    let pawn = board.piece_at(&Position::new(3, 4)).unwrap();
    let control = board.collect_all_moves(Color::Black, false, true);
    assert_eq!(control.len(), 2);
    assert_eq!(control[0].m, Move::move_piece(pawn, Position::new(2, 3)));
    assert_eq!(control[1].m, Move::move_piece(pawn, Position::new(4, 3)));
    let moves = board.collect_piece_moves(&pawn);
    assert_eq!(moves.len(), 1);
    assert_eq!(moves[0].m, Move::move_piece(pawn, Position::new(3, 3)));
    assert!(!moves[0].visited);
    assert!(moves[0].children.is_empty());
}

#[test]
fn only_captures_leaves_out_the_quiet_moves() {
    let mut board = Board::new_empty_game();
    board.add_new_piece(Color::White, Type::Queen, 3, 3);
    board.add_new_piece(Color::Black, Type::Pawn, 3, 6);
    board.add_new_piece(Color::Black, Type::Pawn, 6, 6);
    board.add_new_piece(Color::White, Type::Pawn, 0, 0);
    let queen = board.piece_at(&Position::new(3, 3)).unwrap();
    let captures = board.collect_all_moves(Color::White, true, false);
    assert_eq!(captures.len(), 2);
    assert_eq!(
        captures[0].m,
        Move::capture_piece(queen, board.piece_at(&Position::new(3, 6)).unwrap())
    );
    assert_eq!(
        captures[1].m,
        Move::capture_piece(queen, board.piece_at(&Position::new(6, 6)).unwrap())
    );
    let mut nodes = Vec::new();
    board.append_piece_moves(&queen, &mut nodes, false, false);
    // 7 + 6 on file and rank, 3 + 3 + 2 + 3 on the diagonals.
    assert_eq!(nodes.len(), 7 + 6 + 3 + 3 + 2 + 3);
}

#[test]
fn pushing_and_popping_moves_restores_the_board() {
    let mut board = Board::new_classic_game();
    let before = pieces_of(&board);
    let mut played = 0;
    for _ in 0..40 {
        let color = board.current_color();
        let moves: Vec<Move> = moves_of(&board, color)
            .into_iter()
            .filter(|m| board.can_make(m))
            .collect();
        if moves.is_empty() {
            break;
        }
        let m = moves[moves.len() / 2];
        board.push_move(m);
        played += 1;
        assert_eq!(board.depth(), played);
        assert_eq!(board.last_move(), Some(m));
    }
    assert_eq!(played, 40);
    assert!(pieces_of(&board) != before);
    while board.depth() > 0 {
        board.pop_move();
    }
    assert!(pieces_of(&board) == before);
    assert_eq!(board.last_move(), None);
    assert_eq!(board.current_color(), Color::White);
}

#[test]
fn castling_moves_king_and_rook_and_coming_back_clears_the_counts() {
    let mut board = Board::new_empty_game();
    board.add_new_piece(Color::White, Type::King, 4, 0);
    board.add_new_piece(Color::White, Type::Rook, 0, 0);
    board.add_new_piece(Color::White, Type::Rook, 7, 0);
    let before = pieces_of(&board);
    let castle = Move { score: 0, action: Action::CastleQueenSide };
    assert!(board.can_make(&castle));
    board.push_move(castle);
    assert!(board.piece_at(&Position::new(4, 0)).is_none());
    assert!(board.piece_at(&Position::new(0, 0)).is_none());
    assert_eq!(board.piece_at(&Position::new(2, 0)).unwrap().t, Type::King);
    assert_eq!(board.piece_at(&Position::new(3, 0)).unwrap().t, Type::Rook);
    board.pop_move();
    assert!(pieces_of(&board) == before);
    // The rights are there again: both castlings are generated.
    let castles = moves_of(&board, Color::White)
        .into_iter()
        .filter(|m| matches!(m.action, Action::CastleKingSide | Action::CastleQueenSide))
        .count();
    assert_eq!(castles, 2);
    let step = Move::move_piece(board.piece_at(&Position::new(4, 0)).unwrap(), Position::new(4, 1));
    board.push_move(step);
    board.push_move(Move::move_piece(
        board.piece_at(&Position::new(4, 1)).unwrap(),
        Position::new(4, 0),
    ));
    // The king is back on its square, and has moved.
    let castles = moves_of(&board, Color::White)
        .into_iter()
        .filter(|m| matches!(m.action, Action::CastleKingSide | Action::CastleQueenSide))
        .count();
    assert_eq!(castles, 0);
}

#[test]
fn moves_that_do_not_fit_the_board_cannot_be_made() {
    let mut board = Board::new_two_pawn_game();
    let pawn = board.piece_at(&Position::new(0, 1)).unwrap();
    assert!(board.can_make(&Move::move_piece(pawn, Position::new(0, 2))));
    assert!(!board.can_make(&Move::move_piece(pawn, Position::new(5, 1))));
    assert!(!board.can_make(&Move::move_piece(pawn, Position::new(0, 8))));
    assert!(!board.can_make(&Move::move_piece(pawn.moved(Position::new(3, 3)), Position::new(3, 4))));
    assert!(!board.can_make(&Move { score: 0, action: Action::NoAction }));
    assert!(!board.can_make(&Move { score: 0, action: Action::CastleKingSide }));
    assert!(!board.can_make(&Move::capture_piece(pawn, board.piece_at(&Position::new(5, 1)).unwrap())));
    assert!(board.can_make(&Move::capture_piece(pawn, board.piece_at(&Position::new(1, 6)).unwrap())));
    assert!(!board.can_make(&Move::promote(pawn, Position::new(0, 2), Type::King)));
    assert!(board.can_make(&Move::promote(pawn, Position::new(0, 2), Type::Queen)));
    board.push_move(Move::move_piece(pawn, Position::new(0, 2)));
    assert!(!board.can_make(&Move::move_piece(pawn, Position::new(0, 2))));
}

#[test]
fn moves_are_found_by_their_squares() {
    let mut board = Board::new_classic_game();
    let pawn = board.piece_at(&Position::new(4, 1)).unwrap();
    assert_eq!(
        board.move_from_position(4, 1, 4, 3),
        Some(Move::move_piece(pawn, Position::new(4, 3)))
    );
    assert_eq!(board.move_from_position(4, 1, 4, 4), None);
    assert_eq!(board.move_from_position(4, 6, 4, 5), None);
    assert_eq!(board.move_from_position(-1, 1, 4, 3), None);
    assert_eq!(board.move_from_position(4, 1, 4, 8), None);
    assert_eq!(board.move_from_position(8, 1, 4, 3), None);
    assert_eq!(board.move_from_position(4, -1, 4, 3), None);
    let knight = board.piece_at(&Position::new(6, 0)).unwrap();
    assert_eq!(
        board.move_from_position(6, 0, 5, 2),
        Some(Move::move_piece(knight, Position::new(5, 2)))
    );
}

#[test]
fn castling_is_found_as_the_move_of_the_king_by_two_squares() {
    let mut board = Board::new_empty_game();
    board.add_new_piece(Color::White, Type::King, 4, 0);
    board.add_new_piece(Color::White, Type::Rook, 0, 0);
    board.add_new_piece(Color::White, Type::Rook, 7, 0);
    assert_eq!(
        board.move_from_position(4, 0, 6, 0),
        Some(Move { score: 0, action: Action::CastleKingSide })
    );
    assert_eq!(
        board.move_from_position(4, 0, 2, 0),
        Some(Move { score: 0, action: Action::CastleQueenSide })
    );
    assert!(board.parse_move(&String::from("e1g1")));
    assert!(board.parse_move(&String::from("e1c1")));
    assert!(board.parse_move(&String::from("e1d1")));
    assert!(!board.parse_move(&String::from("e1b1")));
}

#[test]
fn move_text_names_two_squares() {
    let mut board = Board::new_classic_game();
    assert!(board.parse_move(&String::from("e2e4")));
    assert!(board.parse_move(&String::from("g1f3")));
    assert!(board.parse_move(&String::from("e2e4 and more")));
    assert!(!board.parse_move(&String::from("e2e5")));
    assert!(!board.parse_move(&String::from("e7e5")));
    assert!(!board.parse_move(&String::from("e2e")));
    assert!(!board.parse_move(&String::from("")));
    assert!(!board.parse_move(&String::from("i2i4")));
    assert!(!board.parse_move(&String::from("e0e4")));
    assert!(!board.parse_move(&String::from("e2e9")));
    assert!(!board.parse_move(&String::from("E2E4")));
    assert!(!board.parse_move(&String::from("\u{e9}2e4")));
    assert!(!board.parse_move(&String::from("\u{1F600}")));
}

#[test]
fn evaluation_is_material_and_place_from_the_mover_s_side() {
    let mut board = Board::new_classic_game();
    assert_eq!(board.evaluate_position(), 0);
    let mut small = Board::new_single_pawn_game();
    assert_eq!(small.evaluate_position(), 100 - 200);
    let pawn = small.piece_at(&Position::new(4, 4)).unwrap();
    small.push_move(Move::move_piece(pawn, Position::new(4, 5)));
    assert_eq!(small.evaluate_position(), 200 - 100);
    let mut win = Board::new_win_game();
    // Rooks on a1, b1, c1 and the king on a8 against rooks on f1, f2, f3 and
    // the king on h6.
    let white = (500 + 0) + (500 + 5) + (500 + 10) + (10000 + 0);
    let black = (500 + 10) + (500 + 15) + (500 + 20) + (10000 + 2);
    assert_eq!(win.evaluate_position(), white - black);
}

#[test]
fn piece_values_add_a_bonus_towards_the_center() {
    let piece = |t, x, y| Piece { t, position: Position::new(x, y), index: 0, color: Color::White };
    assert_eq!(piece(Type::Knight, 3, 3).value(), 300 + 30);
    assert_eq!(piece(Type::Knight, 0, 0).value(), 300);
    assert_eq!(piece(Type::Rook, 7, 4).value(), 500 + 15);
    assert_eq!(piece(Type::Queen, 4, 4).value(), 900 + 30);
    assert_eq!(piece(Type::King, 4, 0).value(), 10000 + 3);
    assert_eq!(piece(Type::Pawn, 4, 4).value(), 100);
    assert_eq!(piece(Type::Bishop, 4, 4).value(), 300);
    assert_eq!(piece(Type::Pawn, 0, 0).base_value(), 100);
    assert_eq!(piece(Type::Bishop, 0, 0).base_value(), 300);
    assert_eq!(piece(Type::Knight, 0, 0).base_value(), 300);
    assert_eq!(piece(Type::Rook, 0, 0).base_value(), 500);
    assert_eq!(piece(Type::Queen, 0, 0).base_value(), 900);
    assert_eq!(piece(Type::King, 0, 0).base_value(), 10000);
}

#[test]
fn pieces_have_letters_and_move_as_values() {
    let pawn = Piece { t: Type::Pawn, position: Position::new(4, 1), index: 3, color: Color::White };
    assert_eq!(pawn.character(), "P");
    let moved = pawn.moved(Position::new(4, 3));
    assert_eq!(moved.position, Position::new(4, 3));
    assert_eq!(moved.t, Type::Pawn);
    assert_eq!(moved.index, 3);
    assert_eq!(moved.color, Color::White);
    let letters = [
        (Color::White, Type::Rook, "R"),
        (Color::Black, Type::Rook, "r"),
        (Color::White, Type::King, "K"),
        (Color::Black, Type::King, "k"),
        (Color::White, Type::Bishop, "B"),
        (Color::Black, Type::Bishop, "b"),
        (Color::White, Type::Queen, "Q"),
        (Color::Black, Type::Queen, "q"),
        (Color::White, Type::Knight, "N"),
        (Color::Black, Type::Knight, "n"),
        (Color::Black, Type::Pawn, "p"),
    ];
    for (color, t, letter) in letters {
        let piece = Piece { t, position: Position::new(0, 0), index: 0, color };
        assert_eq!(piece.character(), letter);
    }
    assert_eq!(Color::White.other(), Color::Black);
    assert_eq!(Color::Black.other(), Color::White);
}

#[test]
fn move_values_follow_the_pieces() {
    let piece = |t, x, y, color| Piece { t, position: Position::new(x, y), index: 0, color };
    let pawn = piece(Type::Pawn, 4, 4, Color::White);
    let queen = piece(Type::Queen, 3, 3, Color::Black);
    assert_eq!(Move::capture_piece(pawn, queen).value(), 930 / 10 - 100 / 40);
    assert_eq!(Move::capture_piece(queen, pawn).value(), 100 / 10 - 930 / 40);
    assert_eq!(Move::move_piece(pawn, Position::new(4, 5)).value(), 0);
    assert_eq!(Move::promote(pawn, Position::new(4, 7), Type::Queen).value(), (900 + 15) / 10);
    assert_eq!(Move { score: 7, action: Action::CastleKingSide }.value(), 20);
    assert_eq!(Move { score: 7, action: Action::CastleQueenSide }.value(), 10);
    assert_eq!(Move { score: 7, action: Action::NoAction }.value(), 0);
    assert!(Move { score: 7, action: Action::NoAction }.is_valid());
    let capture = Move::capture_piece(pawn, queen);
    assert_eq!(capture.score, 0);
    assert_eq!(capture.action, Action::Capture { piece: pawn, target: queen });
    let cell = Cell::empty();
    assert!(cell.piece.is_none());
    assert_eq!(cell.attacking_white_pieces, 0);
    assert_eq!(cell.attacking_black_pieces, 0);
}

#[test]
fn search_finds_the_capture() {
    let mut board = Board::new_single_pawn_game();
    let before = pieces_of(&board);
    let (_tx, rx) = sync_channel::<Command>(1);
    let pawn = board.piece_at(&Position::new(4, 4)).unwrap();
    let target = board.piece_at(&Position::new(5, 5)).unwrap();
    let best = board.find_best_move(3, &rx).unwrap();
    assert_eq!(best.action, Action::Capture { piece: pawn, target });
    assert_eq!(best.score, 0);
    assert!(pieces_of(&board) == before);
    assert_eq!(board.depth(), 0);
    assert_eq!(board.root_move(), Some(Move { score: 0, action: Action::NoAction }));
}

#[test]
fn search_of_no_depth_finds_nothing() {
    let mut board = Board::new_single_pawn_game();
    let (_tx, rx) = sync_channel::<Command>(1);
    assert_eq!(board.find_best_move(1, &rx), None);
    assert_eq!(board.find_best_move(0, &rx), None);
    assert_eq!(board.find_best_move(-3, &rx), None);
}

#[test]
fn search_without_moves_finds_nothing() {
    let mut board = Board::new_empty_game();
    board.add_new_piece(Color::Black, Type::Pawn, 3, 3);
    let (_tx, rx) = sync_channel::<Command>(1);
    assert_eq!(board.find_best_move(4, &rx), None);
}

#[test]
fn a_waiting_command_stops_the_search() {
    let mut board = Board::new_classic_game();
    let before = pieces_of(&board);
    let (tx, rx) = sync_channel::<Command>(1);
    tx.send(Command::Stop).unwrap();
    assert_eq!(board.find_best_move(6, &rx), None);
    assert!(pieces_of(&board) == before);
    // The command was taken off the channel: the next search runs.
    assert!(board.find_best_move(2, &rx).is_some());
}

#[test]
fn search_score_is_the_negamax_value_after_the_captures() {
    let mut board = Board::new_empty_game();
    board.add_new_piece(Color::White, Type::Rook, 0, 0);
    board.add_new_piece(Color::Black, Type::Queen, 0, 6);
    board.add_new_piece(Color::Black, Type::Pawn, 7, 7);
    let (_tx, rx) = sync_channel::<Command>(1);
    let mut root = MoveNode::new(Move { score: 0, action: Action::NoAction });
    let score = board.search(1, -i16::MAX, i16::MAX, &mut root, false, &rx);
    // The rook takes the queen; nothing can take the rook back.
    let rook_there = 500 + 5;
    assert_eq!(score, rook_there - 100);
    assert!(root.visited);
    assert_eq!(root.children.len(), 13);
    let rook = board.piece_at(&Position::new(0, 0)).unwrap();
    let queen = board.piece_at(&Position::new(0, 6)).unwrap();
    assert_eq!(root.children[0].m.action, Action::Capture { piece: rook, target: queen });
    assert_eq!(root.children[0].m.score, score);
    assert_eq!(root.recursive_children_count(), 13);
}

#[test]
fn search_sees_the_recapture_one_ply_deeper() {
    let mut board = Board::new_empty_game();
    board.add_new_piece(Color::White, Type::Rook, 0, 0);
    board.add_new_piece(Color::Black, Type::Queen, 0, 6);
    board.add_new_piece(Color::Black, Type::Pawn, 1, 7);
    let (_tx, rx) = sync_channel::<Command>(1);
    let mut root = MoveNode::new(Move { score: 0, action: Action::NoAction });
    // One ply deep the rook has taken the queen.
    let score = board.search(1, -i16::MAX, i16::MAX, &mut root, false, &rx);
    assert_eq!(score, 500 + 5 - 100);
    // Two plies deep the pawn takes the rook: a pawn down.
    let score = board.search(2, -i16::MAX, i16::MAX, &mut root, false, &rx);
    assert_eq!(score, -100);
}

#[test]
fn a_pawn_that_captures_onto_the_last_rank_is_promoted() {
    let mut board = Board::new_empty_game();
    board.add_new_piece(Color::White, Type::Pawn, 1, 6);
    board.add_new_piece(Color::Black, Type::Rook, 0, 7);
    board.add_new_piece(Color::Black, Type::Pawn, 7, 1);
    let before = pieces_of(&board);
    let pawn = board.piece_at(&Position::new(1, 6)).unwrap();
    let rook = board.piece_at(&Position::new(0, 7)).unwrap();
    let queen = Piece { t: Type::Queen, position: rook.position, index: pawn.index, color: pawn.color };
    let taking = Move::capture_and_promote(pawn, rook, Type::Queen);
    assert_eq!(
        taking.action,
        Action::CaptureAndPromote { old_piece: pawn, target: rook, new_piece: queen }
    );
    assert_eq!(taking.value(), 500 / 10 - 100 / 40 + 900 / 10);
    assert_eq!(taking.squares(), Some((Position::new(1, 6), Position::new(0, 7))));
    assert_eq!(taking.target_square(Color::White), Some(Position::new(0, 7)));
    assert!(board.can_make(&taking));
    let moves = moves_of(&board, Color::White);
    assert_eq!(moves.len(), 2);
    assert!(moves.iter().any(|m| m.action == taking.action));
    assert!(!moves.iter().any(|m| matches!(m.action, Action::Capture { .. })));
    // Two squares name a plain move, a capture or a promotion only.
    assert_eq!(board.move_from_position(1, 6, 0, 7), None);
    assert_eq!(
        board.move_from_position(1, 6, 1, 7).map(|m| m.action),
        Some(Move::promote(pawn, Position::new(1, 7), Type::Queen).action)
    );
    // Among the captures it is found too, beside the promotion.
    let captures = board.collect_all_moves(Color::White, true, false);
    assert_eq!(captures.len(), 2);
    assert!(captures.iter().any(|node| node.m.action == taking.action));
    // One ply deep the new queen stands on the rook's square against a pawn.
    let (_tx, rx) = sync_channel::<Command>(1);
    let mut root = MoveNode::new(Move { score: 0, action: Action::NoAction });
    let score = board.search(1, -i16::MAX, i16::MAX, &mut root, false, &rx);
    assert_eq!(score, 900 - 100);
    assert_eq!(root.children[0].m.action, taking.action);
    assert!(pieces_of(&board) == before);
    // A pawn that captures short of the last rank stays a pawn.
    let mut board = Board::new_empty_game();
    board.add_new_piece(Color::Black, Type::Pawn, 4, 2);
    board.add_new_piece(Color::White, Type::Knight, 3, 1);
    let pawn = board.piece_at(&Position::new(4, 2)).unwrap();
    let knight = board.piece_at(&Position::new(3, 1)).unwrap();
    let moves = moves_of(&board, Color::Black);
    assert!(moves.iter().any(|m| m.action == Action::Capture { piece: pawn, target: knight }));
    // On its own last rank a black pawn is promoted as it captures.
    let mut board = Board::new_empty_game();
    board.add_new_piece(Color::Black, Type::Pawn, 4, 1);
    board.add_new_piece(Color::White, Type::Knight, 3, 0);
    let pawn = board.piece_at(&Position::new(4, 1)).unwrap();
    let knight = board.piece_at(&Position::new(3, 0)).unwrap();
    let moves = moves_of(&board, Color::Black);
    assert!(moves
        .iter()
        .any(|m| m.action == Move::capture_and_promote(pawn, knight, Type::Queen).action));
}

#[test]
fn search_at_depth_nothing_is_the_static_evaluation() {
    let mut board = Board::new_single_pawn_game();
    let before = pieces_of(&board);
    let (_tx, rx) = sync_channel::<Command>(1);
    let mut root = MoveNode::new(Move { score: 0, action: Action::NoAction });
    let score = board.search(0, -i16::MAX, i16::MAX, &mut root, false, &rx);
    assert_eq!(score, 100 - 200);
    assert_eq!(score, board.evaluate_position());
    assert!(!root.visited);
    assert!(root.children.is_empty());
    assert!(pieces_of(&board) == before);
    assert_eq!(board.depth(), 0);
    assert!(!board.is_stopped());
}

#[test]
fn a_search_told_to_stop_goes_over_the_nodes_it_knows() {
    let mut board = Board::new_single_pawn_game();
    let (_tx, rx) = sync_channel::<Command>(1);
    // Nothing is known yet: the stopped search generates no moves.
    let mut root = MoveNode::new(Move { score: 0, action: Action::NoAction });
    let score = board.search_told(true, 3, -i16::MAX, i16::MAX, &mut root, false, &rx);
    assert_eq!(score, 100 - 200);
    assert!(!root.visited);
    assert!(root.children.is_empty());
    assert!(board.is_stopped());
    // Once stopped, the search stays stopped whatever it is told.
    let score = board.search_told(false, 3, -i16::MAX, i16::MAX, &mut root, false, &rx);
    assert_eq!(score, 100 - 200);
    assert!(board.is_stopped());
    // A search that is not stopped generates the moves; a stopped search
    // after it goes over them, one ply deep and no deeper.
    let mut fresh = Board::new_single_pawn_game();
    let mut node = MoveNode::new(Move { score: 0, action: Action::NoAction });
    let full = fresh.search_told(false, 1, -i16::MAX, i16::MAX, &mut node, false, &rx);
    assert_eq!(full, 0);
    assert!(!fresh.is_stopped());
    assert_eq!(node.children.len(), 2);
    let known = fresh.search_told(true, 3, -i16::MAX, i16::MAX, &mut node, false, &rx);
    assert!(fresh.is_stopped());
    assert_eq!(node.children.len(), 2);
    assert!(node.children.iter().all(|c| c.children.is_empty()));
    assert_eq!(known, 0);
}

#[test]
fn the_search_for_a_move_told_to_stop_finds_none() {
    let mut board = Board::new_single_pawn_game();
    let (_tx, rx) = sync_channel::<Command>(1);
    assert_eq!(board.find_best_move_told(true, 4, &rx), None);
    assert!(board.is_stopped());
    assert!(board.find_best_move_told(false, 4, &rx).is_some());
    assert!(!board.is_stopped());
    assert_eq!(board.find_best_move_told(true, 1, &rx), None);
    assert!(!board.is_stopped());
    assert!(matches!(
        board.respond_told(true, Command::Compute, &rx),
        Some(Response::NoValidMove)
    ));
    assert!(matches!(
        board.respond_told(false, Command::Compute, &rx),
        Some(Response::FoundMove(_))
    ));
}

#[test]
fn a_search_of_one_ply_is_made_in_full_whatever_waits() {
    // Nothing waits: the search of one ply runs to its end.
    let mut calm = Board::new_single_pawn_game();
    let (_quiet, none) = sync_channel::<Command>(1);
    let mut expected = MoveNode::new(Move { score: 0, action: Action::NoAction });
    let score = calm.search_told(false, 1, -i16::MAX, i16::MAX, &mut expected, false, &none);
    assert!(!calm.is_stopped());
    // A command waits when the first answer is searched: the search ends
    // stopped, with the same score and the same tree.
    let mut board = Board::new_single_pawn_game();
    let (tx, rx) = sync_channel::<Command>(1);
    tx.send(Command::Stop).unwrap();
    let mut root = MoveNode::new(Move { score: 0, action: Action::NoAction });
    let stopped = board.search_told(false, 1, -i16::MAX, i16::MAX, &mut root, false, &rx);
    assert!(board.is_stopped());
    assert_eq!(stopped, score);
    assert!(root.visited);
    assert_eq!(root.children.len(), expected.children.len());
    for (found, wanted) in root.children.iter().zip(expected.children.iter()) {
        assert_eq!(found.m, wanted.m);
        assert_eq!(found.visited, wanted.visited);
        assert!(found.children.is_empty());
    }
}

#[test]
fn a_search_stopped_further_down_goes_on_over_what_it_knows() {
    // One ply deep, with nothing waiting.
    let mut calm = Board::new_single_pawn_game();
    let (_quiet, none) = sync_channel::<Command>(1);
    let mut expected = MoveNode::new(Move { score: 0, action: Action::NoAction });
    let shallow = calm.search_told(false, 1, -i16::MAX, i16::MAX, &mut expected, false, &none);
    // Two plies deep, with a command waiting: the search of the first
    // answer is told to stop. No answer to an answer is generated, so every
    // answer is worth what the board is worth once it is made.
    let mut board = Board::new_single_pawn_game();
    let before = pieces_of(&board);
    let (tx, rx) = sync_channel::<Command>(1);
    tx.send(Command::Stop).unwrap();
    let mut root = MoveNode::new(Move { score: 0, action: Action::NoAction });
    let score = board.search_told(false, 2, -i16::MAX, i16::MAX, &mut root, false, &rx);
    assert!(board.is_stopped());
    assert_eq!(score, shallow);
    assert!(root.visited);
    assert_eq!(root.children.len(), expected.children.len());
    for (found, wanted) in root.children.iter().zip(expected.children.iter()) {
        assert_eq!(found.m, wanted.m);
        assert!(!found.visited);
        assert!(found.children.is_empty());
    }
    assert!(pieces_of(&board) == before);
    // The command was taken off the channel by the search that asked.
    assert!(rx.try_recv().is_err());
    // A search for the best move whose first search ends stopped finds
    // none.
    let mut board = Board::new_single_pawn_game();
    let pawn = board.piece_at(&Position::new(4, 4)).unwrap();
    let target = board.piece_at(&Position::new(5, 5)).unwrap();
    assert_eq!(board.find_best_move_told(false, 2, &rx).map(|m| m.action), Some(
        Action::Capture { piece: pawn, target },
    ));
    tx.send(Command::Stop).unwrap();
    let mut board = Board::new_single_pawn_game();
    assert_eq!(board.find_best_move_told(false, 2, &rx), None);
    assert!(board.is_stopped());
}

#[test]
fn a_search_without_a_move_to_make_asks_for_no_command() {
    let mut board = Board::new_empty_game();
    let (tx, rx) = sync_channel::<Command>(1);
    tx.send(Command::Stop).unwrap();
    let mut root = MoveNode::new(Move { score: 0, action: Action::NoAction });
    let score = board.search_told(false, 3, -i16::MAX, i16::MAX, &mut root, false, &rx);
    assert_eq!(score, 0);
    assert!(!board.is_stopped());
    assert!(root.visited);
    assert!(root.children.is_empty());
    // The command still waits.
    assert!(matches!(rx.try_recv(), Ok(Command::Stop)));
}

#[test]
fn a_search_for_a_move_starts_afresh_after_a_stopped_one() {
    let mut board = Board::new_single_pawn_game();
    let (_tx, rx) = sync_channel::<Command>(1);
    assert!(matches!(
        board.respond_told(true, Command::Compute, &rx),
        Some(Response::NoValidMove)
    ));
    assert!(board.is_stopped());
    let pawn = board.piece_at(&Position::new(4, 4)).unwrap();
    let target = board.piece_at(&Position::new(5, 5)).unwrap();
    match board.respond_told(false, Command::Compute, &rx) {
        Some(Response::FoundMove(m)) => {
            assert_eq!(m.action, Action::Capture { piece: pawn, target })
        }
        _ => panic!("the search found no move"),
    }
    assert!(!board.is_stopped());
    // The same through the search itself, on a board that was left stopped.
    let mut board = Board::new_single_pawn_game();
    assert_eq!(board.find_best_move_told(true, 3, &rx), None);
    assert!(board.is_stopped());
    let best = board.find_best_move(3, &rx).unwrap();
    assert_eq!(best.action, Action::Capture { piece: pawn, target });
    assert!(!board.is_stopped());
}

#[test]
fn boards_to_start_from_are_sound_and_not_stopped() {
    let boards = [
        Board::new_empty_game(),
        Board::new_promote_game(),
        Board::new_two_pawn_game(),
        Board::new_classic_game(),
        Board::new_win_game(),
        Board::new_test_game(),
        Board::new_pawn_game(),
        Board::new_single_pawn_game(),
    ];
    for board in boards {
        assert!(board.is_sound());
        assert!(!board.is_stopped());
        assert_eq!(board.root_move(), Some(Move { score: 0, action: Action::NoAction }));
        assert_eq!(board.depth(), 0);
    }
}

#[test]
fn a_board_with_two_pieces_on_one_square_is_not_sound() {
    let mut board = Board::new_empty_game();
    board.add_new_piece(Color::White, Type::Rook, 3, 3);
    assert!(board.is_sound());
    board.add_new_piece(Color::Black, Type::Pawn, 3, 3);
    assert!(!board.is_sound());
    // Neither is one whose pieces could outgrow the evaluation.
    let mut kings = Board::new_empty_game();
    for x in 0..3 {
        kings.add_new_piece(Color::White, Type::King, x, 0);
        assert!(kings.is_sound());
    }
    kings.add_new_piece(Color::White, Type::King, 3, 0);
    assert!(!kings.is_sound());
}

#[test]
fn a_rook_that_left_its_corner_cannot_castle() {
    let mut board = Board::new_empty_game();
    board.add_new_piece(Color::White, Type::King, 4, 0);
    board.add_new_piece(Color::White, Type::Rook, 0, 0);
    board.add_new_piece(Color::White, Type::Rook, 7, 0);
    board.add_new_piece(Color::Black, Type::King, 4, 7);
    let castles = |board: &Board| -> Vec<Action> {
        moves_of(board, Color::White)
            .into_iter()
            .map(|m| m.action)
            .filter(|a| matches!(a, Action::CastleKingSide | Action::CastleQueenSide))
            .collect()
    };
    assert_eq!(castles(&board), vec![Action::CastleKingSide, Action::CastleQueenSide]);
    let black_king = |board: &Board, x: i8| {
        let king = (0..8)
            .filter_map(|i| *board.piece_at(&Position::new(i, 7)))
            .next()
            .unwrap();
        Move::move_piece(king, Position::new(x, 7))
    };
    // The rook of the a-file goes out and comes back.
    let rook = board.piece_at(&Position::new(0, 0)).unwrap();
    board.push_move(Move::move_piece(rook, Position::new(0, 3)));
    let reply = black_king(&board, 3);
    board.push_move(reply);
    let rook = board.piece_at(&Position::new(0, 3)).unwrap();
    board.push_move(Move::move_piece(rook, Position::new(0, 0)));
    let reply = black_king(&board, 4);
    board.push_move(reply);
    assert_eq!(castles(&board), vec![Action::CastleKingSide]);
    // Taking the moves back gives the right back.
    for _ in 0..4 {
        board.pop_move();
    }
    assert_eq!(castles(&board), vec![Action::CastleKingSide, Action::CastleQueenSide]);
}

#[test]
fn the_tree_goes_on_from_the_move_that_is_played() {
    let mut board = Board::new_two_pawn_game();
    let (_tx, rx) = sync_channel::<Command>(1);
    let best = board.find_best_move(3, &rx).unwrap();
    assert_eq!(board.root_move(), Some(Move { score: 0, action: Action::NoAction }));
    board.make_move_root(best);
    assert_eq!(board.root_move(), Some(best));
    board.push_move(best);
    let other = Move { score: 1234, action: Action::CastleKingSide };
    board.make_move_root(other);
    assert_eq!(board.root_move(), Some(Move { score: 0, action: Action::NoAction }));
}

#[test]
fn nodes_count_all_nodes_below_them() {
    let leaf = |score| MoveNode::new(Move { score, action: Action::NoAction });
    let mut first = leaf(1);
    first.children.push(leaf(2));
    first.children.push(leaf(3));
    first.children.push(leaf(4));
    let mut root = leaf(0);
    root.children.push(first);
    root.children.push(leaf(5));
    assert_eq!(root.recursive_children_count(), 5);
    assert_eq!(leaf(9).recursive_children_count(), 0);
    let copy = root.duplicate();
    assert_eq!(copy.recursive_children_count(), 5);
    assert_eq!(copy.children[0].children[2].m.score, 4);
    assert_eq!(copy.children[1].m.score, 5);
}

#[test]
fn sorting_nodes_goes_by_estimate_and_last_score() {
    let board = Board::new_empty_game();
    let node = |score, action| MoveNode::new(Move { score, action });
    let mut nodes = vec![
        node(0, Action::NoAction),
        node(5, Action::CastleQueenSide),
        node(-10, Action::CastleKingSide),
        node(15, Action::NoAction),
        node(10, Action::NoAction),
    ];
    board.sort_moves(&mut nodes);
    let order: Vec<(i16, Action)> = nodes.iter().map(|n| (n.m.score, n.m.action)).collect();
    assert_eq!(
        order,
        vec![
            (5, Action::CastleQueenSide),
            (15, Action::NoAction),
            (-10, Action::CastleKingSide),
            (10, Action::NoAction),
            (0, Action::NoAction),
        ]
    );
}

#[test]
fn position_hash_shifts_nine_bits_for_each_cell() {
    let empty = Board::new_empty_game();
    assert_eq!(empty.position_hash(), (0, 0, 0, 0));
    let mut board = Board::new_empty_game();
    board.add_new_piece(Color::White, Type::Rook, 1, 7);
    assert_eq!(board.position_hash(), (4, 0, 0, 0));
    board.add_new_piece(Color::Black, Type::King, 7, 7);
    assert_eq!(board.position_hash(), (4, 0, 0, 5));
    board.add_new_piece(Color::White, Type::Queen, 7, 6);
    assert_eq!(board.position_hash(), (4, 0, 0, 5 * 512 + 5));
    board.add_new_piece(Color::Black, Type::Bishop, 5, 7);
    board.add_new_piece(Color::White, Type::Pawn, 5, 1);
    assert_eq!(board.position_hash().2, (1u64 << 54) + 1);
}

#[test]
fn a_copy_of_the_board_goes_its_own_way() {
    let mut board = Board::new_classic_game();
    let pawn = board.piece_at(&Position::new(4, 1)).unwrap();
    board.push_move(Move::move_piece(pawn, Position::new(4, 3)));
    let mut copy = board.duplicate();
    assert!(pieces_of(&copy) == pieces_of(&board));
    assert_eq!(copy.depth(), 1);
    assert_eq!(copy.last_move(), board.last_move());
    copy.pop_move();
    assert_eq!(copy.depth(), 0);
    assert_eq!(board.depth(), 1);
    assert!(copy.piece_at(&Position::new(4, 1)).is_some());
    assert!(board.piece_at(&Position::new(4, 1)).is_none());
}

#[test]
fn small_boards_hold_what_their_names_say() {
    let promote = Board::new_promote_game();
    assert_eq!(promote.piece_at(&Position::new(0, 1)).unwrap().color, Color::White);
    assert_eq!(promote.piece_at(&Position::new(7, 6)).unwrap().color, Color::Black);
    assert_eq!(moves_of(&promote, Color::White).len(), 2);
    let test = Board::new_test_game();
    for x in [0, 2, 4, 7] {
        assert_eq!(test.piece_at(&Position::new(x, 0)).unwrap().t, Type::Rook);
        assert_eq!(test.piece_at(&Position::new(x, 7)).unwrap().t, Type::Rook);
    }
    assert!(test.piece_at(&Position::new(1, 0)).is_none());
    assert_eq!(test.white_pieces().iter().filter(|p| p.is_some()).count(), 12);
    assert_eq!(test.black_pieces().iter().filter(|p| p.is_some()).count(), 12);
    let pawns = Board::new_pawn_game();
    assert_eq!(moves_of(&pawns, Color::White).len(), 16);
    let two = Board::new_two_pawn_game();
    assert_eq!(two.white_pieces()[1].unwrap().position, Position::new(5, 1));
    assert_eq!(two.black_pieces()[0].unwrap().position, Position::new(1, 6));
    let win = Board::new_win_game();
    assert_eq!(win.piece_at(&Position::new(0, 7)).unwrap().t, Type::King);
    assert_eq!(win.piece_at(&Position::new(7, 5)).unwrap().t, Type::King);
}

#[test]
fn commands_are_answered() {
    let mut board = Board::new_two_pawn_game();
    let (_tx, rx) = sync_channel::<Command>(1);
    let pawn = board.piece_at(&Position::new(0, 1)).unwrap();
    let step = Move::move_piece(pawn, Position::new(0, 2));
    assert!(matches!(board.respond(Command::Undo, &rx), Some(Response::NoValidMove)));
    assert!(matches!(board.respond(Command::MakeMove(step), &rx), Some(Response::Ack)));
    assert_eq!(board.depth(), 1);
    assert!(matches!(board.respond(Command::MakeMove(step), &rx), Some(Response::NoValidMove)));
    assert_eq!(board.depth(), 1);
    assert!(matches!(board.respond(Command::Undo, &rx), Some(Response::Ack)));
    assert_eq!(board.depth(), 0);
    assert!(board.respond(Command::Stop, &rx).is_none());
    let mut small = Board::new_single_pawn_game();
    let target = small.piece_at(&Position::new(5, 5)).unwrap();
    match small.respond(Command::Compute, &rx) {
        Some(Response::FoundMove(m)) => match m.action {
            Action::Capture { target: taken, .. } => assert_eq!(taken, target),
            _ => unreachable!(),
        },
        _ => unreachable!(),
    }
    let mut empty = Board::new_empty_game();
    assert!(matches!(empty.respond(Command::Compute, &rx), Some(Response::NoValidMove)));
}

#[test]
fn moves_name_the_squares_they_join() {
    let piece = |t, x, y, color| Piece { t, position: Position::new(x, y), index: 0, color };
    let pawn = piece(Type::Pawn, 4, 1, Color::White);
    let rook = piece(Type::Rook, 5, 2, Color::Black);
    let step = Move::move_piece(pawn, Position::new(4, 3));
    assert_eq!(step.squares(), Some((Position::new(4, 1), Position::new(4, 3))));
    assert_eq!(step.target_square(Color::White), Some(Position::new(4, 3)));
    let capture = Move::capture_piece(pawn, rook);
    assert_eq!(capture.squares(), Some((Position::new(4, 1), Position::new(5, 2))));
    assert_eq!(capture.target_square(Color::White), Some(Position::new(5, 2)));
    let castle = Move { score: 0, action: Action::CastleKingSide };
    assert_eq!(castle.squares(), None);
    assert_eq!(castle.target_square(Color::White), Some(Position::new(6, 0)));
    assert_eq!(castle.target_square(Color::Black), Some(Position::new(6, 7)));
    let long = Move { score: 0, action: Action::CastleQueenSide };
    assert_eq!(long.target_square(Color::Black), Some(Position::new(2, 7)));
    assert_eq!(Move { score: 0, action: Action::NoAction }.target_square(Color::White), None);
}

#[test]
fn cells_can_be_changed_in_place() {
    let mut board = Board::new_empty_game();
    board.cell_mut_at(Position::new(2, 5)).attacking_white_pieces = 3;
    assert_eq!(board.cell_at(Position::new(2, 5)).attacking_white_pieces, 3);
    assert_eq!(board.state()[2][5].attacking_white_pieces, 3);
    assert_eq!(board.cell_at(Position::new(5, 2)).attacking_white_pieces, 0);
}

#[test]
fn commands_and_responses_carry_moves() {
    let m = Move { score: 3, action: Action::CastleKingSide };
    assert!(matches!(Command::MakeMove(m), Command::MakeMove(n) if n == m));
    assert!(matches!(Response::FoundMove(m), Response::FoundMove(n) if n == m));
    assert!(matches!(Command::Stop, Command::Stop));
    assert!(matches!(Command::Undo, Command::Undo));
    assert!(matches!(Command::Compute, Command::Compute));
    assert!(matches!(Response::Ack, Response::Ack));
    assert!(matches!(Response::NoValidMove, Response::NoValidMove));
}

#[test]
fn steps_from_a_square_stay_on_the_board() {
    let p = Position::new(5, 5);
    assert_eq!(p.up(1), Some(Position::new(5, 6)));
    assert_eq!(p.up(2), Some(Position::new(5, 7)));
    assert_eq!(p.up(3), None);
    assert_eq!(p.down(5), Some(Position::new(5, 0)));
    assert_eq!(p.down(6), None);
    assert_eq!(p.left(5), Some(Position::new(0, 5)));
    assert_eq!(p.left(6), None);
    assert_eq!(p.right(2), Some(Position::new(7, 5)));
    assert_eq!(p.right(3), None);
    assert_eq!(p.up_left(2), Some(Position::new(3, 7)));
    assert_eq!(p.up_left(3), None);
    assert_eq!(p.down_left(5), Some(Position::new(0, 0)));
    assert_eq!(p.down_left(6), None);
    assert_eq!(p.up_right(2), Some(Position::new(7, 7)));
    assert_eq!(p.up_right(3), None);
    assert_eq!(p.down_right(2), Some(Position::new(7, 3)));
    assert_eq!(p.down_right(3), None);
    assert_eq!(Position::new(0, 7).up(1), None);
    assert_eq!(Position::new(0, 7).left(1), None);
    assert_eq!(Position::new(0, 7).up(0), Some(Position::new(0, 7)));
    assert_eq!(Position::new(3, 4).x, 3);
    assert_eq!(Position::new(3, 4).y, 4);
}

#[test]
fn slot_vector_fills_the_hole_with_the_last_element() {
    let mut v: StaticSlotVec<u32, 4> = StaticSlotVec::new(0);
    assert_eq!(v.len(), 0);
    v.insert(10);
    v.insert(20);
    v.insert(30);
    assert_eq!(v.len(), 3);
    v.remove(10);
    assert_eq!(v.len(), 2);
    v.remove(77);
    assert_eq!(v.len(), 2);
    v.insert(40);
    assert_eq!(v.len(), 3);
    v.remove(30);
    v.remove(20);
    v.remove(40);
    assert_eq!(v.len(), 0);
    v.insert(5);
    v.clear();
    assert_eq!(v.len(), 0);
}
