use ax::driver::play_tic_tac_toe;
use ax::tictactoe::{Board, Game};
use ax::{BufferSink, Player, State, Status};

/// Plays a fixed list of cells, one per turn.
struct Script {
    moves: Vec<usize>,
    next: usize,
}

impl Player<Game<u8>> for Script {
    fn ready(&self, _s: &Game<u8>) -> bool {
        panic!("ghost member, never called at runtime")
    }

    fn turn(_pre: Self, _s: Game<u8>, _post: Self, _r: Game<u8>) -> bool {
        panic!("ghost member, never called at runtime")
    }

    fn take_turn(&mut self, state: Game<u8>) -> Game<u8> {
        let mut board = state.board;
        board
            .place_piece(self.moves[self.next], state.to_move)
            .expect("a scripted move must land on an empty cell");
        self.next += 1;
        Game { board, to_move: state.waiting, waiting: state.to_move }
    }
}

#[test]
fn driver_plays_until_the_first_player_wins() {
    let x = b'X';
    let o = b'O';
    let initial = Game { board: Board::new(), to_move: x, waiting: o };
    let p1 = Script { moves: vec![0, 1, 2], next: 0 };
    let p2 = Script { moves: vec![3, 4], next: 0 };

    let outcome = play_tic_tac_toe(p1, p2, BufferSink::new(), initial);
    let won = outcome.expect("the scripted game ends in a win");
    assert_eq!(Some(x), won.board.c0);
    assert_eq!(Some(x), won.board.c1);
    assert_eq!(Some(x), won.board.c2);
    assert_eq!(Some(o), won.board.c3);
    assert_eq!(Some(o), won.board.c4);
    assert_eq!(Ok(Status::Terminal), won.status());
}

#[test]
fn driver_finishes_within_nine_plies_on_a_full_board() {
    // Both players fill cells left to right; the game must stop at or before
    // the ninth ply. Here the first player holds cells 0, 2, 4 and 6 after
    // the seventh ply, completing a diagonal.
    let x = b'X';
    let o = b'O';
    let initial = Game { board: Board::new(), to_move: x, waiting: o };

    /// Plays the lowest empty cell.
    struct FirstEmpty;

    impl Player<Game<u8>> for FirstEmpty {
        fn ready(&self, _s: &Game<u8>) -> bool {
            panic!("ghost member, never called at runtime")
        }

        fn turn(_pre: Self, _s: Game<u8>, _post: Self, _r: Game<u8>) -> bool {
            panic!("ghost member, never called at runtime")
        }

        fn take_turn(&mut self, state: Game<u8>) -> Game<u8> {
            let mut board = state.board;
            let mut placed = false;
            for j in 0..9 {
                if !placed && board.place_piece(j, state.to_move).is_ok() {
                    placed = true;
                }
            }
            assert!(placed, "the driver never hands a player a full board");
            Game { board, to_move: state.waiting, waiting: state.to_move }
        }
    }

    let outcome = play_tic_tac_toe(FirstEmpty, FirstEmpty, BufferSink::new(), initial);
    let ended = outcome.expect("the game ends");
    assert_eq!(Ok(Status::Terminal), ended.status());
    let cells = [
        ended.board.c0,
        ended.board.c1,
        ended.board.c2,
        ended.board.c3,
        ended.board.c4,
        ended.board.c5,
        ended.board.c6,
        ended.board.c7,
        ended.board.c8,
    ];
    let plies = cells.iter().filter(|c| c.is_some()).count();
    assert!(plies <= 9, "a 3-by-3 game never lasts more than nine plies");
    assert_eq!(7, plies, "this pairing wins on the seventh ply");
}
