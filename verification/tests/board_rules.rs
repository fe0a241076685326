use chess_engine::board::{Board, CastlingRights};
use chess_engine::moves::{Move, MoveType};
use chess_engine::piece::{Color, Piece, PieceType};
use chess_engine::position::Position;

fn empty_board(turn: Color) -> Board {
    Board {
        squares: vec![None; 64],
        current_turn: turn,
        castling_rights: CastlingRights::default(),
        last_move: None,
    }
}

fn put(board: &mut Board, file: u8, rank: u8, piece_type: PieceType, color: Color) {
    let idx = ((rank - 1) as usize) * 8 + ((file - 1) as usize);
    board.squares[idx] = Some(Piece { piece_type, color });
}

fn mv(ff: u8, fr: u8, tf: u8, tr: u8) -> Move {
    Move::new(
        Position { file: ff, rank: fr },
        Position { file: tf, rank: tr },
    )
}

#[test]
fn position_new_accepts_the_board_only() {
    assert!(Position::new(1, 1).is_some());
    assert!(Position::new(8, 8).is_some());
    assert!(Position::new(0, 5).is_none());
    assert!(Position::new(5, 0).is_none());
    assert!(Position::new(9, 1).is_none());
    let p = Position::new(3, 7).unwrap();
    assert_eq!(p.file, 3);
    assert_eq!(p.rank, 7);
}

#[test]
fn algebraic_notation_parses() {
    let e4 = Position::from_algebraic("e4").unwrap();
    assert_eq!(e4.file, 5);
    assert_eq!(e4.rank, 4);
    let a1 = Position::from_algebraic("a1").unwrap();
    assert_eq!(a1.file, 1);
    assert_eq!(a1.rank, 1);
    let h8 = Position::from_algebraic("h8").unwrap();
    assert_eq!(h8.file, 8);
    assert_eq!(h8.rank, 8);
    assert!(Position::from_algebraic("z9").is_none());
    assert!(Position::from_algebraic("e").is_none());
    assert!(Position::from_algebraic("e44").is_none());
    assert!(Position::from_algebraic("i1").is_none());
}

#[test]
fn initial_position_is_set_up() {
    let board = Board::new();
    assert_eq!(board.current_turn(), Color::White);
    let e2 = board.get_piece(Position { file: 5, rank: 2 }).unwrap();
    assert_eq!(e2.piece_type, PieceType::Pawn);
    assert_eq!(e2.color, Color::White);
    let e1 = board.get_piece(Position { file: 5, rank: 1 }).unwrap();
    assert_eq!(e1.piece_type, PieceType::King);
    let d8 = board.get_piece(Position { file: 4, rank: 8 }).unwrap();
    assert_eq!(d8.piece_type, PieceType::Queen);
    assert_eq!(d8.color, Color::Black);
    assert!(board.get_piece(Position { file: 5, rank: 4 }).is_none());
    assert_eq!(board.get_all_pieces().len(), 32);
}

#[test]
fn pawn_moves_one_or_two_from_home() {
    let mut board = Board::new();
    assert!(board.make_move(mv(5, 2, 5, 3)).is_ok());
    let mut board2 = Board::new();
    assert!(board2.make_move(mv(5, 2, 5, 4)).is_ok());
    let mut board3 = Board::new();
    assert_eq!(
        board3.make_move(mv(5, 2, 5, 5)),
        Err("Invalid move for this piece")
    );
}

#[test]
fn make_move_rejects_an_empty_square() {
    let mut board = Board::new();
    assert_eq!(
        board.make_move(mv(3, 3, 3, 4)),
        Err("No piece at starting position")
    );
}

#[test]
fn make_move_enforces_turn_order() {
    let mut board = Board::new();
    assert_eq!(board.make_move(mv(5, 7, 5, 5)), Err("Not your turn"));
    assert!(board.make_move(mv(5, 2, 5, 4)).is_ok());
    assert_eq!(board.current_turn(), Color::Black);
    assert!(board.make_move(mv(5, 7, 5, 5)).is_ok());
}

#[test]
fn make_move_rejects_leaving_the_king_in_check() {
    // The white bishop on e2 is pinned against its king by the rook on e8.
    let mut board = empty_board(Color::White);
    put(&mut board, 5, 1, PieceType::King, Color::White);
    put(&mut board, 5, 2, PieceType::Bishop, Color::White);
    put(&mut board, 5, 8, PieceType::Rook, Color::Black);
    put(&mut board, 1, 8, PieceType::King, Color::Black);
    assert_eq!(
        board.make_move(mv(5, 2, 4, 3)),
        Err("Move would leave king in check")
    );
}

#[test]
fn promotion_is_for_pawns_on_the_far_rank_only() {
    let mut board = Board::new();
    let knight_promo = Move::with_promotion(
        Position { file: 2, rank: 1 },
        Position { file: 3, rank: 3 },
        PieceType::Queen,
    );
    assert_eq!(
        board.make_move(knight_promo),
        Err("Only pawns can be promoted")
    );
    let early_promo = Move::with_promotion(
        Position { file: 5, rank: 2 },
        Position { file: 5, rank: 3 },
        PieceType::Queen,
    );
    assert_eq!(
        board.make_move(early_promo),
        Err("Pawns can only be promoted on the last rank")
    );
}

#[test]
fn promotion_replaces_the_pawn() {
    let mut board = empty_board(Color::White);
    put(&mut board, 1, 7, PieceType::Pawn, Color::White);
    put(&mut board, 5, 1, PieceType::King, Color::White);
    put(&mut board, 8, 8, PieceType::King, Color::Black);
    let promo = Move::with_promotion(
        Position { file: 1, rank: 7 },
        Position { file: 1, rank: 8 },
        PieceType::Queen,
    );
    assert!(board.make_move(promo).is_ok());
    let promoted = board.get_piece(Position { file: 1, rank: 8 }).unwrap();
    assert_eq!(promoted.piece_type, PieceType::Queen);
    assert_eq!(promoted.color, Color::White);
}

#[test]
fn en_passant_removes_the_passed_pawn() {
    let mut board = empty_board(Color::White);
    put(&mut board, 5, 1, PieceType::King, Color::White);
    put(&mut board, 8, 8, PieceType::King, Color::Black);
    put(&mut board, 5, 5, PieceType::Pawn, Color::White);
    put(&mut board, 4, 7, PieceType::Pawn, Color::Black);
    // A waiting king move, then the double pawn push that en passant answers.
    assert!(board.make_move(mv(5, 1, 5, 2)).is_ok());
    assert!(board.make_move(mv(4, 7, 4, 5)).is_ok());
    assert!(board.make_move(mv(5, 5, 4, 6)).is_ok());
    assert!(board.get_piece(Position { file: 4, rank: 5 }).is_none());
    let capturer = board.get_piece(Position { file: 4, rank: 6 }).unwrap();
    assert_eq!(capturer.piece_type, PieceType::Pawn);
    assert_eq!(capturer.color, Color::White);
}

#[test]
fn queenside_castling_moves_king_and_rook() {
    let mut board = empty_board(Color::White);
    put(&mut board, 5, 1, PieceType::King, Color::White);
    put(&mut board, 1, 1, PieceType::Rook, Color::White);
    put(&mut board, 5, 8, PieceType::King, Color::Black);
    let castle = Move::castle(Position { file: 5, rank: 1 }, Position { file: 3, rank: 1 });
    assert!(board.make_move(castle).is_ok());
    assert_eq!(
        board.get_piece(Position { file: 3, rank: 1 }).unwrap().piece_type,
        PieceType::King
    );
    assert_eq!(
        board.get_piece(Position { file: 4, rank: 1 }).unwrap().piece_type,
        PieceType::Rook
    );
    assert!(board.get_piece(Position { file: 5, rank: 1 }).is_none());
    assert!(board.get_piece(Position { file: 1, rank: 1 }).is_none());
    // The castle itself is recorded as the last move.
    assert_eq!(board.last_move(), Some(castle));
}

#[test]
fn kingside_castling_moves_king_and_rook() {
    let mut board = empty_board(Color::White);
    put(&mut board, 5, 1, PieceType::King, Color::White);
    put(&mut board, 8, 1, PieceType::Rook, Color::White);
    put(&mut board, 5, 8, PieceType::King, Color::Black);
    let castle = Move::castle(Position { file: 5, rank: 1 }, Position { file: 7, rank: 1 });
    assert!(board.make_move(castle).is_ok());
    assert_eq!(
        board.get_piece(Position { file: 7, rank: 1 }).unwrap().piece_type,
        PieceType::King
    );
    assert_eq!(
        board.get_piece(Position { file: 6, rank: 1 }).unwrap().piece_type,
        PieceType::Rook
    );
    assert!(board.get_piece(Position { file: 5, rank: 1 }).is_none());
    assert!(board.get_piece(Position { file: 8, rank: 1 }).is_none());
}

#[test]
fn castling_out_of_check_is_rejected() {
    // The black rook on e8 checks the white king, which may not castle
    // away from it.
    let mut board = empty_board(Color::White);
    put(&mut board, 5, 1, PieceType::King, Color::White);
    put(&mut board, 1, 1, PieceType::Rook, Color::White);
    put(&mut board, 5, 8, PieceType::Rook, Color::Black);
    put(&mut board, 1, 8, PieceType::King, Color::Black);
    let castle = Move::castle(Position { file: 5, rank: 1 }, Position { file: 3, rank: 1 });
    assert_eq!(board.make_move(castle), Err("Cannot castle through check"));
}

#[test]
fn castling_needs_its_rights() {
    let mut board = empty_board(Color::White);
    put(&mut board, 5, 1, PieceType::King, Color::White);
    put(&mut board, 1, 1, PieceType::Rook, Color::White);
    put(&mut board, 5, 8, PieceType::King, Color::Black);
    board.castling_rights.white_queenside = false;
    let castle = Move::castle(Position { file: 5, rank: 1 }, Position { file: 3, rank: 1 });
    assert_eq!(board.make_move(castle), Err("Castling is not allowed"));
}

#[test]
fn castling_needs_a_clear_path() {
    let mut board = Board::new();
    let castle = Move::castle(Position { file: 5, rank: 1 }, Position { file: 3, rank: 1 });
    assert_eq!(board.make_move(castle), Err("Path is not clear for castling"));
}

#[test]
fn castling_needs_an_on_board_target() {
    let mut board = empty_board(Color::White);
    put(&mut board, 5, 1, PieceType::King, Color::White);
    put(&mut board, 1, 1, PieceType::Rook, Color::White);
    put(&mut board, 5, 8, PieceType::King, Color::Black);
    let off_board = Move::castle(Position { file: 5, rank: 1 }, Position { file: 3, rank: 0 });
    assert_eq!(
        board.make_move(off_board),
        Err("Castling target is off the board")
    );
}

#[test]
fn castling_needs_its_rook() {
    let mut board = empty_board(Color::White);
    put(&mut board, 5, 1, PieceType::King, Color::White);
    put(&mut board, 5, 8, PieceType::King, Color::Black);
    let castle = Move::castle(Position { file: 5, rank: 1 }, Position { file: 3, rank: 1 });
    assert_eq!(board.make_move(castle), Err("No rook found for castling"));
}

#[test]
fn knight_and_king_move_patterns() {
    let m1 = mv(2, 1, 3, 3);
    assert!(m1.is_valid_knight_move());
    let m2 = mv(2, 1, 2, 3);
    assert!(!m2.is_valid_knight_move());
    let m3 = mv(5, 1, 5, 2);
    assert!(m3.is_valid_king_move());
    let m4 = mv(5, 1, 5, 3);
    assert!(!m4.is_valid_king_move());
}

#[test]
fn sliding_pieces_are_blocked() {
    let board = Board::new();
    // The rook on a1 cannot jump over the pawn on a2.
    let rook_forward = mv(1, 1, 1, 5);
    assert!(!rook_forward.is_valid(&board));
    // The knight jumps out regardless.
    let knight_out = mv(2, 1, 3, 3);
    assert!(knight_out.is_valid(&board));
}

#[test]
fn valid_move_listing_is_check_filtered() {
    let mut board = empty_board(Color::White);
    put(&mut board, 5, 1, PieceType::King, Color::White);
    put(&mut board, 5, 2, PieceType::Bishop, Color::White);
    put(&mut board, 5, 8, PieceType::Rook, Color::Black);
    put(&mut board, 1, 8, PieceType::King, Color::Black);
    // The pinned bishop has no legal move at all.
    let bishop_moves = board.get_valid_moves(Position { file: 5, rank: 2 });
    assert!(bishop_moves.is_empty());
    // The king itself can step aside.
    let king_moves = board.get_valid_moves(Position { file: 5, rank: 1 });
    assert!(!king_moves.is_empty());
}

#[test]
fn checkmate_is_detected() {
    let mut board = empty_board(Color::Black);
    put(&mut board, 8, 8, PieceType::King, Color::Black);
    put(&mut board, 7, 7, PieceType::Queen, Color::White);
    put(&mut board, 7, 6, PieceType::King, Color::White);
    assert!(board.is_in_check(Color::Black));
    assert!(board.is_checkmate());
    assert!(!board.is_stalemate());
}

#[test]
fn stalemate_is_detected() {
    let mut board = empty_board(Color::Black);
    put(&mut board, 1, 8, PieceType::King, Color::Black);
    put(&mut board, 2, 6, PieceType::Queen, Color::White);
    put(&mut board, 5, 1, PieceType::King, Color::White);
    assert!(!board.is_in_check(Color::Black));
    assert!(board.is_stalemate());
    assert!(!board.is_checkmate());
}

#[test]
fn insufficient_material_cases() {
    let mut kk = empty_board(Color::White);
    put(&mut kk, 5, 1, PieceType::King, Color::White);
    put(&mut kk, 5, 8, PieceType::King, Color::Black);
    assert!(kk.has_insufficient_material());

    let mut kbk = empty_board(Color::White);
    put(&mut kbk, 5, 1, PieceType::King, Color::White);
    put(&mut kbk, 3, 1, PieceType::Bishop, Color::White);
    put(&mut kbk, 5, 8, PieceType::King, Color::Black);
    assert!(kbk.has_insufficient_material());

    let mut kqk = empty_board(Color::White);
    put(&mut kqk, 5, 1, PieceType::King, Color::White);
    put(&mut kqk, 4, 1, PieceType::Queen, Color::White);
    put(&mut kqk, 5, 8, PieceType::King, Color::Black);
    assert!(!kqk.has_insufficient_material());

    // Bishops on same-shaded squares cannot outflank each other.
    let mut kbkb = empty_board(Color::White);
    put(&mut kbkb, 5, 1, PieceType::King, Color::White);
    put(&mut kbkb, 3, 1, PieceType::Bishop, Color::White);
    put(&mut kbkb, 5, 8, PieceType::King, Color::Black);
    put(&mut kbkb, 8, 8, PieceType::Bishop, Color::Black);
    assert!(kbkb.has_insufficient_material());

    assert!(!Board::new().has_insufficient_material());
}

#[test]
fn move_equality_is_structural() {
    let a = mv(5, 2, 5, 4);
    let b = mv(5, 2, 5, 4);
    assert_eq!(a, b);
    let c = mv(5, 2, 5, 3);
    assert!(a != c);
    let d = Move {
        from: Position { file: 5, rank: 2 },
        to: Position { file: 5, rank: 4 },
        move_type: MoveType::Capture,
        promotion: None,
    };
    assert!(a != d);
}

#[test]
fn duplicate_is_independent() {
    let board = Board::new();
    let mut copy = board.duplicate();
    assert!(copy.make_move(mv(5, 2, 5, 4)).is_ok());
    assert!(board.get_piece(Position { file: 5, rank: 4 }).is_none());
    assert!(copy.get_piece(Position { file: 5, rank: 4 }).is_some());
}
