use stockfish_rs::position::{Position, START_FEN};
use stockfish_rs::types::{Color, Move, Piece, PieceType, Square};

#[test]
fn test_startpos_fen() {
    let pos = Position::from_fen(START_FEN).unwrap();
    assert_eq!(pos.to_fen(), START_FEN);
}

#[test]
fn test_piece_placement() {
    let pos = Position::from_fen(START_FEN).unwrap();

    let wking = Piece::make(Color::White, PieceType::King);
    let wqueen = Piece::make(Color::White, PieceType::Queen);
    let wrook = Piece::make(Color::White, PieceType::Rook);
    assert_eq!(pos.piece_on(Square::E1), Some(wking));
    assert_eq!(pos.piece_on(Square::D1), Some(wqueen));
    assert_eq!(pos.piece_on(Square::A1), Some(wrook));
    assert_eq!(pos.piece_on(Square::H1), Some(wrook));

    let bking = Piece::make(Color::Black, PieceType::King);
    let bqueen = Piece::make(Color::Black, PieceType::Queen);
    assert_eq!(pos.piece_on(Square::E8), Some(bking));
    assert_eq!(pos.piece_on(Square::D8), Some(bqueen));

    let wpawn = Piece::make(Color::White, PieceType::Pawn);
    let bpawn = Piece::make(Color::Black, PieceType::Pawn);
    assert_eq!(pos.piece_on(Square::E2), Some(wpawn));
    assert_eq!(pos.piece_on(Square::E7), Some(bpawn));
}

#[test]
fn test_move_making() {
    let mut pos = Position::from_fen(START_FEN).unwrap();
    let m = Move::new(Square::E2, Square::E4);
    let wpawn = Piece::make(Color::White, PieceType::Pawn);

    let original_fen = pos.to_fen();

    pos.do_move(m);
    assert_eq!(pos.piece_on(Square::E4), Some(wpawn));
    assert_eq!(pos.piece_on(Square::E2), None);
    assert_eq!(pos.side_to_move(), Color::Black);

    pos.undo_move(m);
    assert_eq!(pos.piece_on(Square::E2), Some(wpawn));
    assert_eq!(pos.piece_on(Square::E4), None);
    assert_eq!(pos.side_to_move(), Color::White);
    assert_eq!(pos.to_fen(), original_fen, "Position should be restored to original FEN");
}

#[test]
fn test_multiple_moves_undo() {
    let mut pos = Position::from_fen(START_FEN).unwrap();
    let original_fen = pos.to_fen();

    let m1 = Move::new(Square::E2, Square::E4);
    let m2 = Move::new(Square::E7, Square::E5);

    pos.do_move(m1);
    pos.do_move(m2);

    pos.undo_move(m2);
    pos.undo_move(m1);

    assert_eq!(pos.to_fen(), original_fen, "Position should be restored after undoing all moves");
}

#[test]
fn test_search_pattern_undo() {
    let mut pos = Position::from_fen(START_FEN).unwrap();
    let original_fen = pos.to_fen();

    let moves = vec![
        Move::new(Square::E2, Square::E4),
        Move::new(Square::D2, Square::D4),
        Move::new(Square::B1, Square::C3),
    ];

    for m in &moves {
        println!("Trying move {:?} -> {:?}", m.from_sq(), m.to_sq());
        let before_fen = pos.to_fen();

        pos.do_move(*m);
        println!("After do_move: {}", pos.to_fen());

        pos.undo_move(*m);
        println!("After undo_move: {}", pos.to_fen());

        assert_eq!(pos.to_fen(), before_fen, "Position should be restored after undo");
        assert_eq!(pos.to_fen(), original_fen, "Position should match original");
    }
}
