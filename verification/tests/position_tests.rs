use shogai::position::Position;

#[test]
fn pos_to_string() {
    let pos = Position(10);
    assert_eq!(pos.to_string(), "2b");

    let pos2 = Position(0);
    assert_eq!(pos2.to_string(), "1a");

    let pos3 = Position(80);
    assert_eq!(pos3.to_string(), "9i");
}

#[test]
fn convertback() {
    for i in 0..80 {
        let p0 = Position(i);
        let p0ts = p0.to_string();
        let p1: Position = Position::from_str(&p0ts).unwrap();

        assert_eq!(p1, p0);
    }
}

#[test]
fn convertback_last_square() {
    let p0 = Position(80);
    let p1 = Position::from_str(&p0.to_string()).unwrap();
    assert_eq!(p1, p0);
}

#[test]
fn position_row_column() {
    assert_eq!(Position(10).column(), '2');
    assert_eq!(Position(10).row(), 'b');
    assert_eq!(Position(0).column(), '1');
    assert_eq!(Position(0).row(), 'a');
    assert_eq!(Position(80).column(), '9');
    assert_eq!(Position(80).row(), 'i');
}

#[test]
fn position_parse_rejects_bad_strings() {
    assert!(Position::from_str("").is_err());
    assert!(Position::from_str("2").is_err());
    assert!(Position::from_str("2bb").is_err());
    assert!(Position::from_str("0b").is_err());
    assert!(Position::from_str("2j").is_err());
    assert!(Position::from_str("b2").is_err());
}
