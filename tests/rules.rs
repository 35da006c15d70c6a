use chess_lib::{
    convert_row_column_to_output, parse_square, row_column_to_square, square_to_row_column, Board,
    Color, Game, MoveError, Piece, PieceType, Player,
};

fn empty_squares() -> Vec<Option<Piece>> {
    vec![None; 64]
}

fn place(squares: &mut Vec<Option<Piece>>, row: u32, col: u32, color: Color, piece_type: PieceType) {
    squares[(row * 8 + col) as usize] = Some(Piece::new(color, piece_type));
}

fn game_from(squares: Vec<Option<Piece>>, player: Player) -> Game {
    Game::setup(Board::from_squares(squares).unwrap(), player)
}

fn sorted(mut moves: Vec<(u32, u32)>) -> Vec<(u32, u32)> {
    moves.sort();
    moves
}

#[test]
fn square_conversions_round_trip() {
    for row in 0..8u32 {
        for col in 0..8u32 {
            assert_eq!(square_to_row_column(row_column_to_square((row, col))), (row, col));
        }
    }
    for s in 0..64u32 {
        assert_eq!(row_column_to_square(square_to_row_column(s)), s);
    }
    assert_eq!(row_column_to_square((7, 7)), 63);
    assert_eq!(square_to_row_column(63), (7, 7));
}

#[test]
fn initial_arrangement_counts_and_kings() {
    let game = Game::new();
    let squares = game.get_board().get_squares();
    assert_eq!(squares.len(), 64);
    let white = squares.iter().filter(|s| matches!(s, Some(p) if p.get_color() == Color::White)).count();
    let black = squares.iter().filter(|s| matches!(s, Some(p) if p.get_color() == Color::Black)).count();
    assert_eq!(white, 16);
    assert_eq!(black, 16);
    assert_eq!(squares[4], Some(Piece::new(Color::White, PieceType::King)));
    assert_eq!(squares[60], Some(Piece::new(Color::Black, PieceType::King)));
    assert_eq!(squares[3], Some(Piece::new(Color::White, PieceType::Queen)));
    assert_eq!(squares[59], Some(Piece::new(Color::Black, PieceType::Queen)));
    assert_eq!(game.whose_turn(), Player::WhitePlayer);
}

#[test]
fn opening_moves_per_piece_type() {
    let game = Game::new();
    assert_eq!(sorted(game.get_possible_moves(1, true)), vec![(2, 0), (2, 2)]);
    assert_eq!(sorted(game.get_possible_moves(62, false)), vec![(5, 5), (5, 7)]);
    assert!(game.get_possible_moves(0, true).is_empty());
    assert!(game.get_possible_moves(2, true).is_empty());
    assert!(game.get_possible_moves(3, true).is_empty());
    assert!(game.get_possible_moves(4, true).is_empty());
    assert_eq!(sorted(game.get_possible_moves(12, true)), vec![(2, 4), (3, 4)]);
    assert_eq!(sorted(game.get_possible_moves(51, false)), vec![(4, 3), (5, 3)]);
    assert!(game.get_possible_moves(30, true).is_empty());
}

#[test]
fn king_step_into_rook_file_is_rejected() {
    let mut squares = empty_squares();
    place(&mut squares, 0, 4, Color::White, PieceType::King);
    place(&mut squares, 7, 0, Color::Black, PieceType::King);
    place(&mut squares, 7, 5, Color::Black, PieceType::Rook);
    let game = game_from(squares.clone(), Player::WhitePlayer);
    assert_eq!(game.legal_move((1, 5), (0, 4)), Ok(false));
    assert_eq!(game.legal_move((0, 5), (0, 4)), Ok(false));
    assert_eq!(game.legal_move((1, 4), (0, 4)), Ok(true));
    squares[61] = None;
    let game = game_from(squares, Player::WhitePlayer);
    assert_eq!(game.legal_move((1, 5), (0, 4)), Ok(true));
    assert_eq!(game.legal_move((0, 5), (0, 4)), Ok(true));
}

#[test]
fn back_rank_mate_is_detected() {
    let mut squares = empty_squares();
    place(&mut squares, 0, 6, Color::White, PieceType::King);
    place(&mut squares, 1, 5, Color::White, PieceType::Pawn);
    place(&mut squares, 1, 6, Color::White, PieceType::Pawn);
    place(&mut squares, 1, 7, Color::White, PieceType::Pawn);
    place(&mut squares, 0, 0, Color::Black, PieceType::Queen);
    place(&mut squares, 7, 7, Color::Black, PieceType::King);
    let game = game_from(squares.clone(), Player::WhitePlayer);
    assert!(game.checkmate());
    assert!(game.legal_moves(6).is_empty());
    // with an escape square opened the king is no longer mated
    squares[15] = None;
    let game = game_from(squares, Player::WhitePlayer);
    assert!(!game.checkmate());
    assert_eq!(game.legal_moves(6), vec![(1, 7)]);
}

#[test]
fn initial_position_is_not_checkmate() {
    let mut game = Game::new();
    assert!(!game.checkmate());
    game.change_player();
    assert!(!game.checkmate());
}

#[test]
fn stalemate_counts_as_no_move() {
    let mut squares = empty_squares();
    place(&mut squares, 0, 0, Color::White, PieceType::King);
    place(&mut squares, 2, 1, Color::Black, PieceType::Queen);
    place(&mut squares, 7, 7, Color::Black, PieceType::King);
    let game = game_from(squares, Player::WhitePlayer);
    assert!(game.checkmate());
}

#[test]
fn repeated_queries_agree_and_leave_position() {
    let mut game = Game::new();
    game.make_move(12, 28);
    game.change_player();
    let before = game.get_board().get_squares().clone();
    let first = game.get_possible_moves(59, false);
    let first_legal = game.legal_move((4, 7), (7, 3));
    for _ in 0..5 {
        assert_eq!(game.get_possible_moves(59, false), first);
        assert_eq!(game.legal_move((4, 7), (7, 3)), first_legal);
    }
    // the filter judges king safety alone, not the movement rule
    assert_eq!(first_legal, Ok(true));
    assert_eq!(game.get_board().get_squares(), &before);
    assert_eq!(game.whose_turn(), Player::BlackPlayer);
}

#[test]
fn rook_scan_stops_at_first_piece() {
    let mut squares = empty_squares();
    place(&mut squares, 3, 3, Color::White, PieceType::Rook);
    place(&mut squares, 5, 3, Color::Black, PieceType::Pawn);
    place(&mut squares, 3, 5, Color::White, PieceType::Pawn);
    let game = game_from(squares, Player::WhitePlayer);
    let moves = game.possible_moves_rook((3, 3), Color::White);
    assert!(moves.contains(&(4, 3)));
    assert!(moves.contains(&(5, 3)));
    assert!(!moves.contains(&(6, 3)));
    assert!(!moves.contains(&(7, 3)));
    assert!(moves.contains(&(3, 4)));
    assert!(!moves.contains(&(3, 5)));
    assert!(!moves.contains(&(3, 6)));
    assert_eq!(moves.len(), 2 + 1 + 3 + 3);
}

#[test]
fn bishop_and_queen_scans() {
    let mut squares = empty_squares();
    place(&mut squares, 0, 0, Color::White, PieceType::Bishop);
    place(&mut squares, 3, 3, Color::Black, PieceType::Knight);
    let game = game_from(squares.clone(), Player::WhitePlayer);
    assert_eq!(sorted(game.possible_moves_bishop((0, 0), Color::White)), vec![(1, 1), (2, 2), (3, 3)]);
    place(&mut squares, 0, 0, Color::White, PieceType::Queen);
    place(&mut squares, 0, 2, Color::White, PieceType::Pawn);
    place(&mut squares, 2, 0, Color::Black, PieceType::Pawn);
    let game = game_from(squares, Player::WhitePlayer);
    assert_eq!(
        sorted(game.possible_moves_queen((0, 0), Color::White)),
        vec![(0, 1), (1, 0), (1, 1), (2, 0), (2, 2), (3, 3)]
    );
}

#[test]
fn king_and_knight_in_corner() {
    let mut squares = empty_squares();
    place(&mut squares, 0, 0, Color::White, PieceType::King);
    place(&mut squares, 1, 1, Color::White, PieceType::Pawn);
    place(&mut squares, 0, 1, Color::Black, PieceType::Pawn);
    place(&mut squares, 7, 7, Color::Black, PieceType::Knight);
    place(&mut squares, 5, 6, Color::Black, PieceType::Pawn);
    let game = game_from(squares, Player::WhitePlayer);
    assert_eq!(sorted(game.possible_moves_king((0, 0), Color::White)), vec![(0, 1), (1, 0)]);
    assert_eq!(sorted(game.possible_moves_knight((7, 7), Color::Black)), vec![(6, 5)]);
    assert_eq!(sorted(game.possible_moves_knight((7, 7), Color::White)), vec![(5, 6), (6, 5)]);
}

#[test]
fn pawn_captures_and_steps() {
    let mut squares = empty_squares();
    place(&mut squares, 1, 3, Color::White, PieceType::Pawn);
    place(&mut squares, 2, 2, Color::Black, PieceType::Rook);
    place(&mut squares, 2, 4, Color::White, PieceType::Knight);
    place(&mut squares, 4, 6, Color::Black, PieceType::Pawn);
    place(&mut squares, 3, 7, Color::White, PieceType::Bishop);
    let game = game_from(squares, Player::WhitePlayer);
    assert_eq!(sorted(game.possible_moves_pawn((1, 3), Color::White)), vec![(2, 2), (2, 3), (3, 3)]);
    // a black pawn away from its starting row has no double step
    assert_eq!(sorted(game.possible_moves_pawn((4, 6), Color::Black)), vec![(3, 6), (3, 7)]);
}

#[test]
fn pawn_double_step_ignores_square_passed_over() {
    let mut squares = empty_squares();
    place(&mut squares, 1, 0, Color::White, PieceType::Pawn);
    place(&mut squares, 2, 0, Color::Black, PieceType::Knight);
    place(&mut squares, 6, 7, Color::Black, PieceType::Pawn);
    place(&mut squares, 5, 7, Color::White, PieceType::Knight);
    let game = game_from(squares, Player::WhitePlayer);
    assert_eq!(game.possible_moves_pawn((1, 0), Color::White), vec![(3, 0)]);
    assert_eq!(game.possible_moves_pawn((6, 7), Color::Black), vec![(4, 7)]);
}

#[test]
fn legality_errors() {
    let game = Game::new();
    assert_eq!(game.legal_move((8, 0), (1, 0)), Err(MoveError::OutOfBoard));
    assert_eq!(game.legal_move((2, 0), (1, 9)), Err(MoveError::OutOfBoard));
    assert_eq!(game.legal_move((3, 3), (4, 4)), Err(MoveError::EmptySquare));
    let mut squares = empty_squares();
    place(&mut squares, 1, 0, Color::White, PieceType::Pawn);
    place(&mut squares, 7, 7, Color::Black, PieceType::King);
    let game = game_from(squares, Player::WhitePlayer);
    assert_eq!(game.legal_move((2, 0), (1, 0)), Err(MoveError::NoKingFound));
    assert!(game.checkmate());
}

#[test]
fn empty_square_has_no_moves() {
    let game = Game::new();
    assert!(game.get_possible_moves(27, true).is_empty());
    assert!(game.legal_moves(27).is_empty());
}

#[test]
fn legal_moves_filter_pins() {
    let mut squares = empty_squares();
    place(&mut squares, 0, 4, Color::White, PieceType::King);
    place(&mut squares, 1, 4, Color::White, PieceType::Rook);
    place(&mut squares, 7, 4, Color::Black, PieceType::Queen);
    place(&mut squares, 7, 0, Color::Black, PieceType::King);
    let game = game_from(squares, Player::WhitePlayer);
    assert_eq!(game.get_possible_moves(12, true).len(), 6 + 7);
    assert_eq!(
        sorted(game.legal_moves(12)),
        vec![(2, 4), (3, 4), (4, 4), (5, 4), (6, 4), (7, 4)]
    );
    assert_eq!(game.legal_move((1, 3), (1, 4)), Ok(false));
    assert_eq!(game.legal_move((7, 4), (1, 4)), Ok(true));
}

#[test]
fn make_move_relocates_and_captures() {
    let mut game = Game::new();
    game.make_move(1, 18);
    let squares = game.get_board().get_squares();
    assert_eq!(squares[1], None);
    assert_eq!(squares[18], Some(Piece::new(Color::White, PieceType::Knight)));
    game.make_move(18, 51);
    let squares = game.get_board().get_squares();
    assert_eq!(squares[18], None);
    assert_eq!(squares[51], Some(Piece::new(Color::White, PieceType::Knight)));
    let pieces = squares.iter().filter(|s| s.is_some()).count();
    assert_eq!(pieces, 31);
}

#[test]
fn turns_alternate() {
    let mut game = Game::new();
    assert_eq!(game.whose_turn(), Player::WhitePlayer);
    assert!(game.holds_own_piece(0));
    assert!(!game.holds_own_piece(63));
    game.change_player();
    assert_eq!(game.whose_turn(), Player::BlackPlayer);
    assert_eq!(game.whose_turn().color(), Color::Black);
    assert!(game.holds_own_piece(63));
    assert!(!game.holds_own_piece(30));
    game.change_player();
    assert_eq!(game.whose_turn(), Player::WhitePlayer);
}

#[test]
fn promotion_request_changes_nothing() {
    let mut game = Game::new();
    let before = game.get_board().get_squares().clone();
    game.set_promotion("Queen");
    assert_eq!(game.get_board().get_squares(), &before);
    let game = game.get_game();
    assert_eq!(game.whose_turn(), Player::WhitePlayer);
}

#[test]
fn square_notation() {
    assert_eq!(convert_row_column_to_output(0, 0), ('a', 1));
    assert_eq!(convert_row_column_to_output(3, 7), ('h', 4));
    assert_eq!(convert_row_column_to_output(7, 4), ('e', 8));
    assert_eq!(convert_row_column_to_output(2, 9), (' ', 3));
    assert_eq!(parse_square(&"e4".chars().collect()), Some((3, 4)));
    assert_eq!(parse_square(&"a1".chars().collect()), Some((0, 0)));
    assert_eq!(parse_square(&"h8 ".chars().collect()), Some((7, 7)));
    assert_eq!(parse_square(&"i1".chars().collect()), None);
    assert_eq!(parse_square(&"a9".chars().collect()), None);
    assert_eq!(parse_square(&"a0".chars().collect()), None);
    assert_eq!(parse_square(&"a".chars().collect()), None);
}

#[test]
fn pieces_and_boards() {
    let piece = Piece::new(Color::Black, PieceType::Bishop);
    assert_eq!(piece.get_color(), Color::Black);
    assert_eq!(piece.piece_type, PieceType::Bishop);
    assert!(Board::from_squares(vec![None; 63]).is_none());
    assert!(Board::from_squares(vec![None; 64]).is_some());
    assert_eq!(Board::new().get_squares(), Game::new().get_board().get_squares());
}
