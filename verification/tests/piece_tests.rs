use shogai::piece::{Color, Piece, PieceType};
use shogai::position::Position;

/// for test purposes only
fn move_to(p: &mut Piece, dest_square: Position) {
    p.position = Some(dest_square);
}

/// for test purposes only
fn remove(p: &mut Piece) {
    p.color.invert();
    p.position = None;
}

#[test]
fn move_check() {
    for i in 0..80 {
        for j in 0..80 {
            let a = Position(i);
            let b = Position(j);
            let c = Position(j);
            let mut p1 = Piece {
                color: Color::Black,
                piecetype: PieceType::Pawn,
                promoted: false,
                position: Some(a),
            };
            let p2 = Piece {
                color: Color::Black,
                piecetype: PieceType::Pawn,
                promoted: false,
                position: Some(b),
            };

            move_to(&mut p1, c);
            assert_eq!(p1, p2);
        }
    }
}

#[test]
fn remove_check() {
    for i in 0..80 {
        let a = Position(i);
        let mut p1 = Piece {
            color: Color::Black,
            piecetype: PieceType::Pawn,
            promoted: false,
            position: Some(a),
        };
        remove(&mut p1);
        assert_eq!(p1.position, None);
        assert_eq!(p1.color, Color::White);
    }
}

#[test]
fn simpletostring() {
    let p1: PieceType = PieceType::Pawn;
    let _s1 = p1.to_string();
}

#[test]
fn piece_type_letters() {
    assert_eq!(PieceType::Pawn.to_string(), "P");
    assert_eq!(PieceType::Lance.to_string(), "L");
    assert_eq!(PieceType::Knight.to_string(), "N");
    assert_eq!(PieceType::Silver.to_string(), "S");
    assert_eq!(PieceType::Gold.to_string(), "G");
    assert_eq!(PieceType::Bishop.to_string(), "B");
    assert_eq!(PieceType::Rook.to_string(), "R");
    assert_eq!(PieceType::King.to_string(), "K");
}

#[test]
fn piece_values_by_tier() {
    let on_board = Piece {
        color: Color::White,
        piecetype: PieceType::Pawn,
        promoted: false,
        position: Some(Position(10)),
    };
    assert_eq!(on_board.value(), 100);

    let promoted = Piece { promoted: true, ..on_board };
    assert_eq!(promoted.value(), 420);

    let in_reserve = Piece { promoted: false, position: None, ..on_board };
    assert_eq!(in_reserve.value(), 115);

    let king = Piece { piecetype: PieceType::King, ..on_board };
    assert_eq!(king.value(), 25000);

    let rook = Piece { piecetype: PieceType::Rook, ..on_board };
    assert_eq!(rook.value(), 1040);
}

#[test]
fn pawn_relative_moves() {
    let white = Piece {
        color: Color::White,
        piecetype: PieceType::Pawn,
        promoted: false,
        position: Some(Position(40)),
    };
    assert_eq!(white.get_relative_moves(), vec![(0, 1)]);

    let black = Piece { color: Color::Black, ..white };
    assert_eq!(black.get_relative_moves(), vec![(0, -1)]);
}

#[test]
fn knight_moves_do_not_wrap_at_edge() {
    // A knight on the first column can only jump toward the second.
    let knight = Piece {
        color: Color::White,
        piecetype: PieceType::Knight,
        promoted: false,
        position: Some(Position(0)),
    };
    assert_eq!(knight.get_relative_moves(), vec![(1, 2)]);
}

#[test]
fn promoted_silver_moves_like_gold() {
    let silver = Piece {
        color: Color::White,
        piecetype: PieceType::Silver,
        promoted: true,
        position: Some(Position(40)),
    };
    let gold = Piece { piecetype: PieceType::Gold, promoted: false, ..silver };
    let mut s = silver.get_relative_moves();
    let mut g = gold.get_relative_moves();
    s.sort();
    g.sort();
    assert_eq!(s, g);
}

#[test]
fn color_inverts() {
    let mut c = Color::White;
    c.invert();
    assert_eq!(c, Color::Black);
    c.invert();
    assert_eq!(c, Color::White);
}
