use shogai::board::Board;
use shogai::invalidmoveerror::InvalidMoveError;
use shogai::piece::{Color, Piece, PieceType};
use shogai::position::Position;

#[test]
fn play_a_move() {
    let mut b1 = Board::empty();
    let p1: Position = Position::from_str("1f").unwrap();
    b1.add_piece(Piece {
        color: Color::White,
        piecetype: PieceType::Pawn,
        promoted: false,
        position: Some(p1),
    });

    let b3 = b1.play_move("P1f-1g");

    let mut b2 = Board::empty();
    b2.turn.invert();
    let p2: Position = Position::from_str("1g").unwrap();
    b2.add_piece(Piece {
        color: Color::White,
        piecetype: PieceType::Pawn,
        promoted: false,
        position: Some(p2),
    });
    assert_eq!(b2, b3);
}

#[test]
fn play_a_drop() {
    let mut b1 = Board::empty();
    b1.add_piece(Piece {
        color: Color::White,
        piecetype: PieceType::Pawn,
        promoted: false,
        position: None,
    });

    let b3 = b1.play_move("P*3e");

    let mut b2 = Board::empty();
    b2.turn.invert();
    let p2: Position = Position::from_str("3e").unwrap();
    b2.add_piece(Piece {
        color: Color::White,
        piecetype: PieceType::Pawn,
        promoted: false,
        position: Some(p2),
    });

    assert_eq!(b2, b3);
}

#[test]
fn empty_board_has_no_moves() {
    let b = Board::empty();
    assert_eq!(b.iter_moves().len(), 0);
}

#[test]
fn opening_pawn_push_is_legal() {
    let b = Board::new();
    assert_eq!(b.get_color(), Color::White);
    assert!(b.check_move("P9c-9d").is_ok());

    let after = b.play_move("P9c-9d");
    let from = Position::from_str("9c").unwrap();
    let to = Position::from_str("9d").unwrap();
    assert!(after.is_occupied_by(from).is_none());
    let moved = after.is_occupied_by(to).expect("the pawn should have arrived");
    assert_eq!(moved.piecetype, PieceType::Pawn);
    assert_eq!(moved.color, Color::White);
    assert_ne!(after.get_color(), b.get_color());
}

#[test]
fn turn_alternates_on_each_move() {
    let b = Board::new();
    let after = b.play_move("P9c-9d");
    assert_eq!(after.get_color(), Color::Black);
    let after2 = after.play_move("P1g-1f");
    assert_eq!(after2.get_color(), Color::White);
}

#[test]
fn capture_flips_and_demotes_the_victim() {
    let mut b = Board::empty();
    let from = Position::from_str("5e").unwrap();
    let to = Position::from_str("5f").unwrap();
    b.add_piece(Piece {
        color: Color::White,
        piecetype: PieceType::Pawn,
        promoted: false,
        position: Some(from),
    });
    b.add_piece(Piece {
        color: Color::Black,
        piecetype: PieceType::Silver,
        promoted: true,
        position: Some(to),
    });

    let after = b.play_move("P5ex5f");

    // The captured silver is in White's reserve, demoted and flipped.
    let reserve = Piece {
        color: Color::White,
        piecetype: PieceType::Silver,
        promoted: false,
        position: None,
    };
    assert!(after.iter().contains(&reserve));
    // Its old board form is gone, and White's pawn stands there now.
    let occupant = after.is_occupied_by(to).expect("the pawn should stand there");
    assert_eq!(occupant.color, Color::White);
    assert_eq!(occupant.piecetype, PieceType::Pawn);
}

#[test]
fn nifu_drop_is_rejected() {
    let mut b = Board::empty();
    b.add_piece(Piece {
        color: Color::White,
        piecetype: PieceType::Pawn,
        promoted: false,
        position: Some(Position::from_str("5e").unwrap()),
    });
    b.add_piece(Piece {
        color: Color::White,
        piecetype: PieceType::Pawn,
        promoted: false,
        position: None,
    });
    assert_eq!(b.check_move("P*5c"), Err(InvalidMoveError::NifuViolationError));
    // Another column is fine.
    assert!(b.check_move("P*4c").is_ok());
}

#[test]
fn moving_onto_own_piece_is_rejected() {
    let mut b = Board::empty();
    b.add_piece(Piece {
        color: Color::White,
        piecetype: PieceType::Pawn,
        promoted: false,
        position: Some(Position::from_str("5e").unwrap()),
    });
    b.add_piece(Piece {
        color: Color::White,
        piecetype: PieceType::Gold,
        promoted: false,
        position: Some(Position::from_str("5f").unwrap()),
    });
    assert_eq!(
        b.check_move("P5e-5f"),
        Err(InvalidMoveError::DestinationOccupiedError)
    );
    // The capture joiner makes no difference on one's own piece.
    assert_eq!(
        b.check_move("P5ex5f"),
        Err(InvalidMoveError::DestinationOccupiedError)
    );
}

#[test]
fn knight_drop_on_far_rows_is_rejected() {
    let mut b = Board::empty();
    b.add_piece(Piece {
        color: Color::White,
        piecetype: PieceType::Knight,
        promoted: false,
        position: None,
    });
    assert_eq!(
        b.check_move("N*5i"),
        Err(InvalidMoveError::NoMovePossibleAfterDropError)
    );
    assert_eq!(
        b.check_move("N*5h"),
        Err(InvalidMoveError::NoMovePossibleAfterDropError)
    );
    assert!(b.check_move("N*5g").is_ok());

    let mut b2 = Board::empty();
    b2.turn.invert();
    b2.add_piece(Piece {
        color: Color::Black,
        piecetype: PieceType::Knight,
        promoted: false,
        position: None,
    });
    assert_eq!(
        b2.check_move("N*5a"),
        Err(InvalidMoveError::NoMovePossibleAfterDropError)
    );
    assert_eq!(
        b2.check_move("N*5b"),
        Err(InvalidMoveError::NoMovePossibleAfterDropError)
    );
    assert!(b2.check_move("N*5c").is_ok());
}

#[test]
fn remaining_error_variants() {
    let b = Board::empty();
    assert_eq!(b.check_move("nonsense"), Err(InvalidMoveError::MoveSyntaxError));
    assert_eq!(b.check_move("P0a-1a"), Err(InvalidMoveError::OutOfBoardMoveError));
    assert_eq!(b.check_move("P5e-5f"), Err(InvalidMoveError::NoPieceAtPositionError));

    let mut b2 = Board::empty();
    b2.add_piece(Piece {
        color: Color::White,
        piecetype: PieceType::Pawn,
        promoted: false,
        position: Some(Position::from_str("5e").unwrap()),
    });
    assert_eq!(b2.check_move("P5ex5f"), Err(InvalidMoveError::NoPieceCapturedError));
    assert_eq!(b2.check_move("P5e-4e"), Err(InvalidMoveError::PieceHasNoSuchMoveError));
    assert_eq!(b2.check_move("P5e-5f+"), Err(InvalidMoveError::PromotionError));

    let mut b3 = Board::empty();
    b3.add_piece(Piece {
        color: Color::White,
        piecetype: PieceType::Pawn,
        promoted: false,
        position: Some(Position::from_str("5h").unwrap()),
    });
    // Promotion is mandatory on the last row.
    assert_eq!(b3.check_move("P5h-5i"), Err(InvalidMoveError::PromotionError));
    assert!(b3.check_move("P5h-5i+").is_ok());
}

#[test]
fn uncovering_the_king_is_rejected() {
    let mut b = Board::empty();
    b.add_piece(Piece {
        color: Color::White,
        piecetype: PieceType::King,
        promoted: false,
        position: Some(Position::from_str("5a").unwrap()),
    });
    b.add_piece(Piece {
        color: Color::White,
        piecetype: PieceType::Gold,
        promoted: false,
        position: Some(Position::from_str("5b").unwrap()),
    });
    b.add_piece(Piece {
        color: Color::Black,
        piecetype: PieceType::Rook,
        promoted: false,
        position: Some(Position::from_str("5i").unwrap()),
    });
    b.add_piece(Piece {
        color: Color::Black,
        piecetype: PieceType::King,
        promoted: false,
        position: Some(Position::from_str("1i").unwrap()),
    });
    assert_eq!(b.check_move("G5b-4b"), Err(InvalidMoveError::UncoverCheckError));
    // Keeping the shield is fine.
    assert!(b.check_move("G5b-5c").is_ok());
}

#[test]
fn pawn_drop_checkmate_is_rejected() {
    // Black's cornered king has five escape squares; the two golds cover
    // every one of them and each other, so the pawn dropped in front
    // delivers mate and the drop is forbidden.
    let mut b = Board::empty();
    b.add_piece(Piece {
        color: Color::Black,
        piecetype: PieceType::King,
        promoted: false,
        position: Some(Position::from_str("1b").unwrap()),
    });
    b.add_piece(Piece {
        color: Color::White,
        piecetype: PieceType::Gold,
        promoted: false,
        position: Some(Position::from_str("2a").unwrap()),
    });
    b.add_piece(Piece {
        color: Color::White,
        piecetype: PieceType::Gold,
        promoted: false,
        position: Some(Position::from_str("2b").unwrap()),
    });
    b.add_piece(Piece {
        color: Color::White,
        piecetype: PieceType::King,
        promoted: false,
        position: Some(Position::from_str("9i").unwrap()),
    });
    b.add_piece(Piece {
        color: Color::White,
        piecetype: PieceType::Pawn,
        promoted: false,
        position: None,
    });
    assert_eq!(
        b.check_move("P*1a"),
        Err(InvalidMoveError::CheckmateByPawnDropError)
    );
    // A drop away from the king is fine.
    assert!(b.check_move("P*4e").is_ok());
}

#[test]
fn kingless_side_is_lost() {
    // A side whose king is already captured loses every line: whatever it
    // plays, the opponent's counter-replies still find no king to spare.
    let mut b = Board::empty();
    b.add_piece(Piece {
        color: Color::White,
        piecetype: PieceType::Pawn,
        promoted: false,
        position: Some(Position::from_str("5e").unwrap()),
    });
    b.add_piece(Piece {
        color: Color::Black,
        piecetype: PieceType::Gold,
        promoted: false,
        position: Some(Position::from_str("5a").unwrap()),
    });
    assert!(b.game_over());
}

#[test]
fn withdraw_removes_movers_pieces() {
    let b = Board::new();
    let after = b.play_move("withdraw");
    // The first player's pieces are gone, the second player's remain.
    assert_eq!(after.iter().len(), 20);
    assert!(after.iter().iter().all(|p| p.color == Color::Black));
    // The turn stays with the withdrawing side.
    assert_eq!(after.get_color(), Color::White);
}

#[test]
fn restart_needs_the_rule_and_resets() {
    let b = Board::new();
    assert!(b.check_move("restart").is_err());

    let mut b2 = Board::new();
    b2.rules.can_restart = true;
    assert!(b2.check_move("restart").is_ok());
    let fresh = b2.play_move("restart");
    assert_eq!(fresh, Board::new());
}

#[test]
fn starting_position_is_symmetric() {
    let b = Board::new();
    assert_eq!(b.iter().len(), 40);
    assert_eq!(b.value(), 0);
    assert!(b.contains(PieceType::King, Color::White));
    assert!(b.contains(PieceType::King, Color::Black));
}

#[test]
fn flip_reflects_through_the_center() {
    let mut b = Board::empty();
    b.add_piece(Piece {
        color: Color::White,
        piecetype: PieceType::Rook,
        promoted: false,
        position: Some(Position(0)),
    });
    b.flip();
    assert!(b.is_occupied_by(Position(0)).is_none());
    let p = b.is_occupied_by(Position(80)).unwrap();
    assert_eq!(p.piecetype, PieceType::Rook);
}

#[test]
fn iter_pawns_and_pieces_split() {
    let b = Board::new();
    assert_eq!(b.iter_pawns(Color::White).len(), 9);
    assert_eq!(b.iter_pawns(Color::Black).len(), 9);
    assert_eq!(b.iter_pieces(Color::White).len(), 11);
    assert_eq!(b.iter_pieces(Color::Black).len(), 11);
}

#[test]
fn empty_board_counts_as_over() {
    // No moves at all: the side to move is trivially lost.
    assert!(Board::empty().game_over());
    // The fresh starting position is not over.
    assert!(!Board::new().game_over());
}

#[test]
fn thirty_legal_moves_from_the_start() {
    // The standard starting position offers exactly thirty legal moves.
    let b = Board::new();
    let moves = b.iter_moves();
    assert_eq!(moves.len(), 30);
    for mv in &moves {
        assert!(b.check_move(mv).is_ok());
    }
}

#[test]
fn sliding_moves_respect_obstruction() {
    let mut b = Board::empty();
    b.add_piece(Piece {
        color: Color::White,
        piecetype: PieceType::Rook,
        promoted: false,
        position: Some(Position::from_str("5e").unwrap()),
    });
    b.add_piece(Piece {
        color: Color::Black,
        piecetype: PieceType::Pawn,
        promoted: false,
        position: Some(Position::from_str("5g").unwrap()),
    });
    // The pawn blocks the long push but can itself be taken.
    assert_eq!(b.check_move("R5e-5h"), Err(InvalidMoveError::PieceHasNoSuchMoveError));
    assert!(b.check_move("R5e-5f").is_ok());
    assert!(b.check_move("R5ex5g").is_ok());
    // Sideways slides over empty squares are unobstructed.
    assert!(b.check_move("R5e-1e").is_ok());
}

#[test]
fn scripted_opening_with_a_capture() {
    let mut b = Board::new();
    b = b.play_move("P9c-9d");
    b = b.play_move("P9g-9f");
    b = b.play_move("P9d-9e");
    // Black takes the advanced pawn head on.
    assert!(b.check_move("P9fx9e").is_ok());
    b = b.play_move("P9fx9e");

    // The captured pawn sits in Black's reserve.
    let reserve = Piece {
        color: Color::Black,
        piecetype: PieceType::Pawn,
        promoted: false,
        position: None,
    };
    assert!(b.iter().contains(&reserve));
    let square = Position::from_str("9e").unwrap();
    let occupant = b.is_occupied_by(square).unwrap();
    assert_eq!(occupant.color, Color::Black);
    assert_eq!(occupant.piecetype, PieceType::Pawn);
    assert_eq!(b.get_color(), Color::White);
    assert_eq!(b.iter().len(), 40);
}

#[test]
fn promoted_rook_gains_diagonal_steps() {
    let mut b = Board::empty();
    b.add_piece(Piece {
        color: Color::White,
        piecetype: PieceType::Rook,
        promoted: true,
        position: Some(Position::from_str("5e").unwrap()),
    });
    // One diagonal step is now possible, a long diagonal still is not.
    assert!(b.check_move("R5e-6f").is_ok());
    assert_eq!(b.check_move("R5e-7g"), Err(InvalidMoveError::PieceHasNoSuchMoveError));
    // The straight slides remain.
    assert!(b.check_move("R5e-5a").is_ok());
}
