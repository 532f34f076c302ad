use ax::tictactoe::{Board, Error};
use ax::{AsBytes, State, Status};

use rand::Rng;

#[test]
fn empty_pieces() {
    let b: Board<&str> = Board::from(Vec::new());
    let mut pieces = b.into_iter();

    for i in 0..10 {
        if i < 9 {
            assert_eq!(Some(None), pieces.next());
        } else {
            assert_eq!(
                None,
                pieces.next(),
                "a tic-tac-toe board should only have 9 pieces!"
            );
        }
    }
}

#[test]
fn sparse_pieces() {
    let b = Board::from(vec![(0, "X"), (4, "X"), (8, "X")]);
    let mut pieces = b.into_iter();

    assert_eq!(Some(Some("X")), pieces.next(), "expected piece('X') at:  0");
    for i in 0..3 {
        assert_eq!(Some(None), pieces.next(), "expected no piece at: {}", i + 1);
    }
    assert_eq!(Some(Some("X")), pieces.next(), "expected piece('X') at: 4");
    for i in 0..3 {
        assert_eq!(Some(None), pieces.next(), "expected no piece at: {}", i + 4);
    }
    assert_eq!(Some(Some("X")), pieces.next(), "expected piece('X') at: 8");
}

#[test]
fn sparse_pieces_2() {
    let b = Board::from(vec![(2, "X"), (4, "X"), (8, "X")]);
    let mut pieces = b.into_iter();

    for i in 0..2 {
        assert_eq!(Some(None), pieces.next(), "expected no piece at: {}", i);
    }
    assert_eq!(Some(Some("X")), pieces.next(), "expected piece('X') at: 2");
    assert_eq!(Some(None), pieces.next(), "expected no piece at: 3");
    assert_eq!(Some(Some("X")), pieces.next(), "expected piece('X') at: 4");
    for i in 0..3 {
        assert_eq!(Some(None), pieces.next(), "expected no piece at: {}", i + 5);
    }
    assert_eq!(Some(Some("X")), pieces.next(), "expected piece('X') at: 8");
}

#[test]
fn place_piece() {
    let mut b: Board<&str> = Board::new();

    assert_eq!(Ok(()), b.place_piece(1, "X"));
    assert_eq!(Ok(()), b.place_piece(0, "X"));
}

#[test]
fn place_piece_random_order() {
    let mut r = rand::thread_rng();
    let i = r.gen_range(0..9);
    let j = loop {
        let n = r.gen_range(0..9);
        if n != i {
            break n;
        }
    };
    let k = loop {
        let n = r.gen_range(0..9);
        if n != i && n != j {
            break n;
        }
    };
    let mut b: Board<&str> = Board::new();

    assert_eq!(Ok(()), b.place_piece(i, "X"));
    assert_eq!(Ok(()), b.place_piece(j, "X"));
    assert_eq!(Ok(()), b.place_piece(k, "X"));
}

#[test]
fn place_piece_on_occupied_spot() {
    let mut b: Board<&str> = Board::new();

    assert_eq!(Ok(()), b.place_piece(0, "X"));
    assert_eq!(Err(Error::SpotOccupied), b.place_piece(0, "X"));
}

#[test]
fn is_winner() {
    let possibilities = vec![
        (0, 1, 2),
        (3, 4, 5),
        (6, 7, 8),
        (0, 3, 6),
        (1, 4, 7),
        (2, 5, 8),
        (6, 7, 8),
        (0, 4, 8),
        (2, 4, 6),
    ];
    for pos in possibilities {
        let mut b = Board::new();

        b.place_piece(pos.0, "X").expect("");
        b.place_piece(pos.1, "X").expect("");
        b.place_piece(pos.2, "X").expect("");

        assert_eq!(
            Some(true),
            b.is_winner("X"),
            "expected winner for combo: {:?}",
            pos
        );
    }
}

#[test]
fn is_not_winner() {
    let b = Board::from(vec![(0, "X"), (3, "X"), (6, "X")]);

    assert_eq!(Some(false), b.is_winner("O"));
}

#[test]
fn is_winner_needs_three_pieces() {
    let b = Board::from(vec![(0, "X"), (1, "X")]);

    assert_eq!(None, b.is_winner("X"));
}

#[test]
fn board_status_reports_win_and_fullness() {
    let mut b: Board<&str> = Board::new();
    assert_eq!(Ok(Status::Valid), b.status());

    b.place_piece(0, "X").expect("");
    b.place_piece(4, "O").expect("");
    assert_eq!(Ok(Status::Valid), b.status());

    b.place_piece(1, "X").expect("");
    b.place_piece(5, "O").expect("");
    b.place_piece(2, "X").expect("");
    assert_eq!(Ok(Status::Terminal), b.status());

    // A drawn, full board is terminal as well.
    let full = Board::from(vec![
        (0, "X"),
        (1, "O"),
        (2, "X"),
        (3, "X"),
        (4, "O"),
        (5, "X"),
        (6, "O"),
        (7, "X"),
        (8, "O"),
    ]);
    assert_eq!(None, full.is_winner("Z"));
    assert_eq!(Ok(Status::Terminal), full.status());
}

#[test]
fn board_has_empty() {
    let mut b: Board<&str> = Board::new();
    assert!(b.has_empty());
    for i in 0..9 {
        b.place_piece(i, "X").expect("");
    }
    assert!(!b.has_empty());
}

#[test]
fn board_renders_rows_and_dividers() {
    let mut b: Board<u8> = Board::new();
    b.place_piece(0, b'X').expect("");
    b.place_piece(4, b'O').expect("");

    let expected = b"X |  | \n---------\n | O | \n---------\n |  | \n".to_vec();
    assert_eq!(expected, b.as_bytes());
}
