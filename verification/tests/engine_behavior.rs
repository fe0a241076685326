use chess_engine::ai::ChessAI;
use chess_engine::board::{Board, CastlingRights};
use chess_engine::evaluation::evaluate_position;
use chess_engine::mirror::mirror_sides;
use chess_engine::moves::Move;
use chess_engine::opening_book::OpeningBook;
use chess_engine::piece::{Color, Piece, PieceType};
use chess_engine::position::Position;
use chess_engine::search::{
    generate_ordered_moves, mvv_lva_score, search_best_move, search_root, SearchContext,
    MATE_SCORE, MATE_THRESHOLD,
};
use chess_engine::timeman::TimeManager;
use chess_engine::tt::{
    adjust_mate_score, get_position_key, EntryType, TTEntry, TranspositionTable,
};

fn empty_board(turn: Color) -> Board {
    Board {
        squares: vec![None; 64],
        current_turn: turn,
        castling_rights: CastlingRights::default(),
        last_move: None,
    }
}

fn put(board: &mut Board, file: u8, rank: u8, piece_type: PieceType, color: Color) {
    let idx = ((rank - 1) as usize) * 8 + ((file - 1) as usize);
    board.squares[idx] = Some(Piece { piece_type, color });
}

fn mv(ff: u8, fr: u8, tf: u8, tr: u8) -> Move {
    Move::new(
        Position { file: ff, rank: fr },
        Position { file: tf, rank: tr },
    )
}

fn board_accepts(board: &Board, m: Move) -> bool {
    let mut copy = board.duplicate();
    copy.make_move(m).is_ok()
}

#[test]
fn evaluation_negates_under_mirroring() {
    // An asymmetric middlegame position: the sides mirrored, the score
    // must be the exact negation.
    let mut board = Board::new();
    assert!(board.make_move(mv(5, 2, 5, 4)).is_ok());
    let mirrored = mirror_sides(&board);
    assert_eq!(evaluate_position(&board), -evaluate_position(&mirrored));

    let mut later = Board::new();
    assert!(later.make_move(mv(5, 2, 5, 4)).is_ok());
    assert!(later.make_move(mv(3, 7, 3, 5)).is_ok());
    assert!(later.make_move(mv(7, 1, 6, 3)).is_ok());
    let later_mirrored = mirror_sides(&later);
    assert_eq!(evaluate_position(&later), -evaluate_position(&later_mirrored));
}

#[test]
fn mirroring_swaps_colors_and_ranks() {
    let mut board = Board::new();
    assert!(board.make_move(mv(5, 2, 5, 4)).is_ok());
    let mirrored = mirror_sides(&board);
    // The white pawn that stood on e4 stands on e5 as a black pawn.
    let moved = mirrored.get_piece(Position { file: 5, rank: 5 }).unwrap();
    assert_eq!(moved.piece_type, PieceType::Pawn);
    assert_eq!(moved.color, Color::Black);
    assert!(mirrored.get_piece(Position { file: 5, rank: 4 }).is_none());
    assert_eq!(mirrored.current_turn(), board.current_turn());
}

#[test]
fn evaluator_scores_terminal_positions() {
    let mut mate = empty_board(Color::Black);
    put(&mut mate, 8, 8, PieceType::King, Color::Black);
    put(&mut mate, 7, 7, PieceType::Queen, Color::White);
    put(&mut mate, 7, 6, PieceType::King, Color::White);
    assert_eq!(evaluate_position(&mate), -19500);

    let mut stale = empty_board(Color::Black);
    put(&mut stale, 1, 8, PieceType::King, Color::Black);
    put(&mut stale, 2, 6, PieceType::Queen, Color::White);
    put(&mut stale, 5, 1, PieceType::King, Color::White);
    assert_eq!(evaluate_position(&stale), 0);

    let mut bare = empty_board(Color::White);
    put(&mut bare, 5, 1, PieceType::King, Color::White);
    put(&mut bare, 5, 8, PieceType::King, Color::Black);
    assert_eq!(evaluate_position(&bare), 0);
}

#[test]
fn cache_round_trip_returns_the_stored_score() {
    let mut table = TranspositionTable::new();
    let board = Board::new();
    let key = get_position_key(&board);
    let entry = TTEntry {
        depth: 5,
        score: 123,
        entry_type: EntryType::Exact,
        best_move: Some(mv(5, 2, 5, 4)),
    };
    table.store(key, entry);
    let found = table.lookup(key).unwrap();
    assert_eq!(found.score, 123);
    assert_eq!(found.depth, 5);
    assert!(found.entry_type == EntryType::Exact);
    // Probing at a shallower depth keeps a plain score unchanged.
    assert_eq!(adjust_mate_score(found.score, 3), 123);
    // A mate score is shifted by the probing depth.
    assert_eq!(adjust_mate_score(19500, 3), 19497);
    assert_eq!(adjust_mate_score(-19500, 3), -19497);
    assert!(table.lookup(key ^ 1).is_none() || key ^ 1 == key);
}

#[test]
fn position_keys_tell_positions_apart() {
    let a = Board::new();
    let b = Board::new();
    assert_eq!(get_position_key(&a), get_position_key(&b));
    let mut c = Board::new();
    assert!(c.make_move(mv(5, 2, 5, 4)).is_ok());
    assert!(get_position_key(&a) != get_position_key(&c));
}

#[test]
fn time_allocation_is_clamped() {
    let tm = TimeManager::new(4000, Some(40));
    assert_eq!(tm.allocated_ms, 100);
    let tm2 = TimeManager::new(2000, Some(2));
    assert_eq!(tm2.allocated_ms, 1000);
    let tm3 = TimeManager::new(100000, Some(2));
    assert_eq!(tm3.allocated_ms, 15000);
    let tm4 = TimeManager::new(10, Some(40));
    assert_eq!(tm4.allocated_ms, 100);
    let tm5 = TimeManager::new(8000, None);
    assert_eq!(tm5.allocated_ms, 200);
}

#[test]
fn cached_move_is_ordered_first() {
    let board = Board::new();
    let ctx = SearchContext::new();
    let hint = mv(4, 2, 4, 4);
    let ordered = generate_ordered_moves(&board, Some(hint), 0, None, &ctx);
    assert!(!ordered.is_empty());
    assert_eq!(ordered[0], hint);
    // Without a cached move, a capture outranks any quiet move: play to
    // a position with one capture and check it leads.
    let mut tactical = empty_board(Color::White);
    put(&mut tactical, 5, 1, PieceType::King, Color::White);
    put(&mut tactical, 5, 4, PieceType::Pawn, Color::White);
    put(&mut tactical, 4, 5, PieceType::Queen, Color::Black);
    put(&mut tactical, 5, 8, PieceType::King, Color::Black);
    let ordered2 = generate_ordered_moves(&tactical, None, 0, None, &ctx);
    assert!(!ordered2.is_empty());
    assert_eq!(ordered2[0].from, Position { file: 5, rank: 4 });
    assert_eq!(ordered2[0].to, Position { file: 4, rank: 5 });
}

#[test]
fn capture_ordering_prefers_big_victims() {
    assert_eq!(mvv_lva_score(PieceType::Queen, PieceType::Pawn), 890);
    assert_eq!(mvv_lva_score(PieceType::Pawn, PieceType::Queen), 10);
    assert!(
        mvv_lva_score(PieceType::Queen, PieceType::Pawn)
            > mvv_lva_score(PieceType::Pawn, PieceType::Pawn)
    );
}

#[test]
fn search_returns_none_without_moves() {
    // Checkmated: no move to return.
    let mut mate = empty_board(Color::Black);
    put(&mut mate, 8, 8, PieceType::King, Color::Black);
    put(&mut mate, 7, 7, PieceType::Queen, Color::White);
    put(&mut mate, 7, 6, PieceType::King, Color::White);
    assert!(search_best_move(&mate, 200, None).is_none());

    // Stalemated: likewise none.
    let mut stale = empty_board(Color::Black);
    put(&mut stale, 1, 8, PieceType::King, Color::Black);
    put(&mut stale, 2, 6, PieceType::Queen, Color::White);
    put(&mut stale, 5, 1, PieceType::King, Color::White);
    assert!(search_best_move(&stale, 200, None).is_none());
}

#[test]
fn search_takes_the_undefended_queen() {
    // Black's queen on d5 is undefended and the white pawn on e4 can
    // take it.
    let mut board = empty_board(Color::White);
    put(&mut board, 5, 1, PieceType::King, Color::White);
    put(&mut board, 5, 4, PieceType::Pawn, Color::White);
    put(&mut board, 4, 5, PieceType::Queen, Color::Black);
    put(&mut board, 5, 8, PieceType::King, Color::Black);
    let found = search_best_move(&board, 500, None).unwrap();
    assert_eq!(found.from, Position { file: 5, rank: 4 });
    assert_eq!(found.to, Position { file: 4, rank: 5 });
}

#[test]
fn search_finds_mate_in_one() {
    // Only the rook's leap to the back rank mates: the black king is
    // walled in by its own pawns.
    let mut board = empty_board(Color::White);
    put(&mut board, 5, 1, PieceType::King, Color::White);
    put(&mut board, 1, 1, PieceType::Rook, Color::White);
    put(&mut board, 7, 8, PieceType::King, Color::Black);
    put(&mut board, 6, 7, PieceType::Pawn, Color::Black);
    put(&mut board, 7, 7, PieceType::Pawn, Color::Black);
    put(&mut board, 8, 7, PieceType::Pawn, Color::Black);
    let mut ctx = SearchContext::new();
    let moves = generate_ordered_moves(&board, None, 0, None, &ctx);
    let (best, score) = search_root(&board, &moves, 1, -MATE_SCORE, MATE_SCORE, &mut ctx);
    let mate_move = best.unwrap();
    assert_eq!(mate_move.from, Position { file: 1, rank: 1 });
    assert_eq!(mate_move.to, Position { file: 1, rank: 8 });
    assert!(score >= MATE_THRESHOLD);
    // The driver finds the same move whatever the depth it reaches.
    let driven = search_best_move(&board, 300, None).unwrap();
    assert_eq!(driven.from, Position { file: 1, rank: 1 });
    assert_eq!(driven.to, Position { file: 1, rank: 8 });
}

#[test]
fn search_from_the_start_stays_legal() {
    let board = Board::new();
    let found = search_best_move(&board, 200, None).unwrap();
    assert!(board_accepts(&board, found));
    // The move is one that the board's own move listing offers.
    let listed = board.get_valid_moves(found.from);
    assert!(listed.iter().any(|m| *m == found));
}

#[test]
fn search_is_repeatable_on_a_fresh_cache() {
    // A forced position: two runs from scratch must pick the same move.
    let mut board = empty_board(Color::White);
    put(&mut board, 5, 1, PieceType::King, Color::White);
    put(&mut board, 1, 1, PieceType::Rook, Color::White);
    put(&mut board, 7, 8, PieceType::King, Color::Black);
    put(&mut board, 6, 7, PieceType::Pawn, Color::Black);
    put(&mut board, 7, 7, PieceType::Pawn, Color::Black);
    put(&mut board, 8, 7, PieceType::Pawn, Color::Black);
    let first = search_best_move(&board, 300, None);
    let second = search_best_move(&board, 300, None);
    assert_eq!(first, second);

    // A clear material win is likewise repeatable.
    let mut capture = empty_board(Color::White);
    put(&mut capture, 5, 1, PieceType::King, Color::White);
    put(&mut capture, 5, 4, PieceType::Pawn, Color::White);
    put(&mut capture, 4, 5, PieceType::Queen, Color::Black);
    put(&mut capture, 5, 8, PieceType::King, Color::Black);
    let a = search_best_move(&capture, 300, None);
    let b = search_best_move(&capture, 300, None);
    assert_eq!(a, b);
}

#[test]
fn book_returns_a_move_it_was_taught() {
    let mut book = OpeningBook {
        positions: std::collections::HashMap::new(),
    };
    let board = Board::new();
    let taught = mv(4, 2, 4, 4);
    book.add_line(&board, taught, 7);
    // One line only: whatever the dice say, the single entry comes back.
    let got = book.get_book_move(&board).unwrap();
    assert_eq!(got, taught);

    let mut other = Board::new();
    assert!(other.make_move(mv(1, 2, 1, 3)).is_ok());
    assert!(book.get_book_move(&other).is_none());
}

#[test]
fn stocked_book_knows_the_start() {
    let book = OpeningBook::new();
    let board = Board::new();
    let got = book.get_book_move(&board).unwrap();
    let openings = [mv(5, 2, 5, 4), mv(4, 2, 4, 4), mv(7, 1, 6, 3), mv(3, 2, 3, 4)];
    assert!(openings.iter().any(|m| *m == got));
    assert!(board_accepts(&board, got));
}

#[test]
fn zero_weight_lines_are_not_added() {
    let mut book = OpeningBook {
        positions: std::collections::HashMap::new(),
    };
    let board = Board::new();
    book.add_line(&board, mv(4, 2, 4, 4), 0);
    assert!(book.get_book_move(&board).is_none());
}

#[test]
fn parallel_and_sequential_ranking_agree() {
    let parallel = ChessAI::new(3);
    let sequential = ChessAI {
        use_parallel: false,
        ..ChessAI::new(3)
    };
    let board = Board::new();
    let ctx = SearchContext::new();
    let moves = generate_ordered_moves(&board, None, 0, None, &ctx);
    assert!(!moves.is_empty());
    let ranked_par = parallel.evaluate_moves(&board, &moves);
    let ranked_seq = sequential.evaluate_moves(&board, &moves);
    assert_eq!(ranked_par.len(), ranked_seq.len());
    for i in 0..ranked_par.len() {
        assert_eq!(ranked_par[i].0, ranked_seq[i].0);
        assert_eq!(ranked_par[i].1, ranked_seq[i].1);
    }
}

#[test]
fn engine_driver_plays_a_legal_move() {
    let engine = ChessAI::new(3);
    let board = Board::new();
    let chosen = engine.get_best_move(&board).unwrap();
    assert!(board_accepts(&board, chosen));
}

#[test]
fn engine_depth_is_clamped() {
    assert_eq!(ChessAI::new(0).search_depth, 3);
    assert_eq!(ChessAI::new(4).search_depth, 4);
    assert_eq!(ChessAI::new(9).search_depth, 5);
}
