use chess_core::zobrist::{init_zobrist, Board, Color, Move, PieceType};

fn empty_squares() -> Vec<(PieceType, Color)> {
    vec![(PieceType::Null, Color::White); 64]
}

fn start_like_squares() -> Vec<(PieceType, Color)> {
    let mut sq = empty_squares();
    sq[4] = (PieceType::King, Color::White);
    sq[12] = (PieceType::Pawn, Color::White);
    sq[11] = (PieceType::Pawn, Color::White);
    sq[60] = (PieceType::King, Color::Black);
    sq[52] = (PieceType::Pawn, Color::Black);
    sq[35] = (PieceType::Knight, Color::Black);
    sq
}

fn quiet(start: u8, end: u8, moved: PieceType, captured: PieceType, promotion: PieceType) -> Move {
    Move {
        start_square: start,
        end_square: end,
        piece_moved: moved,
        piece_captured: captured,
        promotion,
        is_en_passant: false,
        is_castling: false,
    }
}

#[test]
fn zobrist_table_is_reproducible() {
    let a = init_zobrist();
    let b = init_zobrist();
    assert_eq!(a.table, b.table);
    assert_eq!(a.black_to_move, b.black_to_move);
    assert_eq!(a.hash, 0);
    assert_eq!(a.table.len(), 64);
    assert!(a.table.iter().all(|row| row.len() == 12));
    assert_ne!(a.table[0][0], a.table[0][1]);
}

#[test]
fn empty_board_hash_is_side_key_only() {
    let white = Board::new(empty_squares(), Color::White);
    assert_eq!(white.zobrist.hash, 0);
    let black = Board::new(empty_squares(), Color::Black);
    assert_eq!(black.zobrist.hash, black.zobrist.black_to_move);
}

#[test]
fn single_piece_hash_uses_its_key() {
    let mut sq = empty_squares();
    sq[10] = (PieceType::Rook, Color::White);
    let b = Board::new(sq, Color::White);
    // white rook: 3 + 3 * 2 = 9
    assert_eq!(b.zobrist.hash, b.zobrist.table[10][9]);
    let mut sq2 = empty_squares();
    sq2[10] = (PieceType::Rook, Color::Black);
    let b2 = Board::new(sq2, Color::White);
    assert_eq!(b2.zobrist.hash, b2.zobrist.table[10][3]);
}

fn check_incremental(mut board: Board, mov: Move) {
    let before_hash = board.zobrist.hash;
    let placed = if mov.promotion == PieceType::Null { mov.piece_moved } else { mov.promotion };
    let mover = board.color_to_move;
    board.squares[mov.start_square as usize] = (PieceType::Null, mover);
    board.squares[mov.end_square as usize] = (placed, mover);
    board.color_to_move = mover.flip();
    board.update_hash(mov);
    let incremental = board.zobrist.hash;
    assert_ne!(incremental, before_hash);
    board.init_hash();
    assert_eq!(incremental, board.zobrist.hash);
}

#[test]
fn incremental_quiet_move_matches_recompute() {
    let b = Board::new(start_like_squares(), Color::White);
    check_incremental(b, quiet(12, 28, PieceType::Pawn, PieceType::Null, PieceType::Null));
}

#[test]
fn incremental_capture_matches_recompute() {
    let b = Board::new(start_like_squares(), Color::Black);
    check_incremental(b, quiet(35, 11, PieceType::Knight, PieceType::Pawn, PieceType::Null));
}

#[test]
fn incremental_promotion_matches_recompute() {
    let mut sq = start_like_squares();
    sq[49] = (PieceType::Pawn, Color::White);
    sq[56] = (PieceType::Rook, Color::Black);
    let b = Board::new(sq, Color::White);
    check_incremental(b, quiet(49, 56, PieceType::Pawn, PieceType::Rook, PieceType::Queen));
}

#[test]
fn en_passant_recomputes() {
    let mut sq = start_like_squares();
    sq[36] = (PieceType::Pawn, Color::White);
    sq[37] = (PieceType::Pawn, Color::Black);
    let mut b = Board::new(sq, Color::White);
    b.squares[36] = (PieceType::Null, Color::White);
    b.squares[37] = (PieceType::Null, Color::White);
    b.squares[45] = (PieceType::Pawn, Color::White);
    b.color_to_move = Color::Black;
    let mut mov = quiet(36, 45, PieceType::Pawn, PieceType::Pawn, PieceType::Null);
    mov.is_en_passant = true;
    b.update_hash(mov);
    let h = b.zobrist.hash;
    let fresh = Board::new(b.squares.clone(), Color::Black);
    assert_eq!(h, fresh.zobrist.hash);
}

#[test]
fn unmake_restores_hash() {
    let mut b = Board::new(start_like_squares(), Color::White);
    let before_move = b.zobrist.hash;
    let mov = quiet(12, 20, PieceType::Pawn, PieceType::Null, PieceType::Null);
    b.squares[12] = (PieceType::Null, Color::White);
    b.squares[20] = (PieceType::Pawn, Color::White);
    b.color_to_move = Color::Black;
    b.update_hash(mov);
    assert_ne!(b.zobrist.hash, before_move);
    // taking the move back XORs the same delta in again
    b.update_hash(mov);
    b.squares[20] = (PieceType::Null, Color::White);
    b.squares[12] = (PieceType::Pawn, Color::White);
    b.color_to_move = Color::White;
    assert_eq!(b.zobrist.hash, before_move);
    b.init_hash();
    assert_eq!(b.zobrist.hash, before_move);
}
