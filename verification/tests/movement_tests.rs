use shogai::movement::Movement;
use shogai::piece::PieceType;
use shogai::position::Position;

#[test]
fn convertmoves() {
    for &pr in &[true, false] {
        for start in 0..80 {
            for end in 0..80 {
                let mv = Movement {
                    piecetype: PieceType::Pawn,
                    start: Some(Position(start)),
                    end: Position(end),
                    promotion: pr,
                    force_capture: true,
                    withdraw: false,
                    restart: false,
                };

                let s = mv.clone().to_string();
                assert_eq!(mv, Movement::from_str(&s).unwrap());
            }
        }
    }
}

#[test]
fn testdrop() {
    let s = "P*8f".to_string();
    let mv = Movement::from_str(&s).unwrap();
    let s2 = mv.to_string();
    assert_eq!(s, s2);
}

#[test]
fn testrestart() {
    let s = "restart";
    let mv: Movement = Movement::from_str(s).unwrap();
    assert!(mv.restart);
    let s2 = mv.to_string();
    assert_eq!(s, s2);
}

#[test]
fn testwithdraw() {
    let mv = Movement::from_str("withdraw").unwrap();
    assert!(mv.withdraw);
    assert!(!mv.restart);
    assert_eq!(mv.to_string(), "withdraw");
}

#[test]
fn drop_parses_to_structure() {
    let mv = Movement::from_str("P*3e").unwrap();
    assert_eq!(mv.piecetype, PieceType::Pawn);
    assert_eq!(mv.start, None);
    assert_eq!(mv.end, Position(2 + 9 * 4));
    assert!(!mv.promotion);
    assert!(!mv.force_capture);
}

#[test]
fn normal_move_parses_to_structure() {
    let mv = Movement::from_str("K5i-4h").unwrap();
    assert_eq!(mv.piecetype, PieceType::King);
    assert_eq!(mv.start, Some(Position(4 + 9 * 8)));
    assert_eq!(mv.end, Position(3 + 9 * 7));
    assert!(!mv.promotion);
    assert!(!mv.force_capture);

    let mv2 = Movement::from_str("L9ax9f+").unwrap();
    assert_eq!(mv2.piecetype, PieceType::Lance);
    assert_eq!(mv2.start, Some(Position(8)));
    assert_eq!(mv2.end, Position(8 + 9 * 5));
    assert!(mv2.promotion);
    assert!(mv2.force_capture);
}

#[test]
fn malformed_moves_are_rejected() {
    assert!(Movement::from_str("").is_err());
    assert!(Movement::from_str("P").is_err());
    assert!(Movement::from_str("P*3").is_err());
    assert!(Movement::from_str("P*0e").is_err());
    assert!(Movement::from_str("X*3e").is_err());
    assert!(Movement::from_str("P1a=1b").is_err());
    assert!(Movement::from_str("P1a-1b++").is_err());
    assert!(Movement::from_str("restarts").is_err());
}
