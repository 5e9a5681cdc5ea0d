use breakthrough::board::{BreakthroughMove, BreakthroughNode};
use breakthrough::notation::{parse_legal_move, MoveInputError, MoveParseError};

#[test]
fn test_move_str() {
    for move_str in vec!["a2a3", "b2a3", "e7e6", "f7g6"] {
        let mv = BreakthroughMove::from_str(move_str);
        assert_eq!(move_str.to_string(), mv.unwrap().to_string())
    }
}

#[test]
fn move_squares_read_from_text() {
    assert_eq!(BreakthroughMove::from_str("a2a3"), Ok(BreakthroughMove(48, 40)));
    assert_eq!(BreakthroughMove::from_str("h8a1"), Ok(BreakthroughMove(7, 56)));
    assert_eq!(BreakthroughMove(52, 44).to_string(), "e2e3");
}

#[test]
fn malformed_move_text_is_refused() {
    assert_eq!(BreakthroughMove::from_str("a2a"), Err(MoveParseError::WrongLength));
    assert_eq!(BreakthroughMove::from_str("a2a3a"), Err(MoveParseError::WrongLength));
    assert_eq!(BreakthroughMove::from_str(""), Err(MoveParseError::WrongLength));
    assert_eq!(BreakthroughMove::from_str("i2a3"), Err(MoveParseError::BadFirstSquare));
    assert_eq!(BreakthroughMove::from_str("a0a3"), Err(MoveParseError::BadFirstSquare));
    assert_eq!(BreakthroughMove::from_str("a2a9"), Err(MoveParseError::BadSecondSquare));
    assert_eq!(BreakthroughMove::from_str("a2A3"), Err(MoveParseError::BadSecondSquare));
    assert_eq!(BreakthroughMove::from_str("é2a"), Err(MoveParseError::BadFirstSquare));
}

#[test]
fn every_move_text_reads_back() {
    for from in 0u8..64 {
        for to in [0u8, 9, 35, 63] {
            let m = BreakthroughMove(from, to);
            assert_eq!(BreakthroughMove::from_str(&m.to_string()), Ok(m));
        }
    }
}

#[test]
fn starting_diagram() {
    let expected = "B B B B B B B B\nB B B B B B B B\n. . . . . . . .\n. . . . . . . .\n\
                    . . . . . . . .\n. . . . . . . .\nW W W W W W W W\nW W W W W W W W";
    assert_eq!(BreakthroughNode::default().to_string(), expected);
}

#[test]
fn player_moves_must_be_legal() {
    let start = BreakthroughNode::default();
    assert_eq!(parse_legal_move(&start, "e2e3"), Ok(BreakthroughMove(52, 44)));
    assert_eq!(parse_legal_move(&start, "e2f3"), Ok(BreakthroughMove(52, 45)));
    assert_eq!(parse_legal_move(&start, "e2e4"), Err(MoveInputError::Illegal));
    assert_eq!(parse_legal_move(&start, "e7e6"), Err(MoveInputError::Illegal));
    assert_eq!(
        parse_legal_move(&start, "e2"),
        Err(MoveInputError::Unreadable(MoveParseError::WrongLength))
    );
    assert_eq!(
        parse_legal_move(&start, "e2z3"),
        Err(MoveInputError::Unreadable(MoveParseError::BadSecondSquare))
    );
}
