use shogai::ai::greedy;
use shogai::board::Board;
use shogai::piece::{Color, Piece, PieceType};
use shogai::position::Position;

#[test]
fn greedy_returns_the_only_move() {
    let mut b = Board::empty();
    b.add_piece(Piece {
        color: Color::White,
        piecetype: PieceType::Pawn,
        promoted: false,
        position: Some(Position::from_str("5h").unwrap()),
    });
    // The only legal move is the mandatory promotion push.
    let moves = b.iter_moves();
    assert_eq!(moves, vec!["P5h-5i+".to_string()]);
    assert_eq!(greedy(&b), "P5h-5i+");
}

#[test]
fn greedy_picks_a_legal_move_from_the_start() {
    let b = Board::new();
    let mv = greedy(&b);
    assert!(b.check_move(&mv).is_ok());
}

#[test]
fn greedy_prefers_the_capture() {
    // White can either capture the undefended rook or push a far-away pawn.
    let mut b = Board::empty();
    b.add_piece(Piece {
        color: Color::White,
        piecetype: PieceType::Gold,
        promoted: false,
        position: Some(Position::from_str("5e").unwrap()),
    });
    b.add_piece(Piece {
        color: Color::Black,
        piecetype: PieceType::Rook,
        promoted: false,
        position: Some(Position::from_str("5f").unwrap()),
    });
    b.add_piece(Piece {
        color: Color::White,
        piecetype: PieceType::Pawn,
        promoted: false,
        position: Some(Position::from_str("1b").unwrap()),
    });
    let mv = greedy(&b);
    let after = b.play_move(&mv);
    assert!(after
        .iter()
        .iter()
        .any(|p| p.piecetype == PieceType::Rook && p.color == Color::White && p.position == None));
}
