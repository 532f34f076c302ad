use ax::ai::{Heuristic, Negamax};
use ax::tictactoe::{Board, Game};
use ax::{FiniteState, Player};

/// Scores a position for the `O` player: a win for `O` is worth one, a loss
/// minus one, anything else nothing.
struct OWinLoss;

impl Heuristic<Game<char>> for OWinLoss {
    fn spec_score(&self, _s: Game<char>) -> i8 {
        panic!("ghost member, never called at runtime")
    }

    fn lemma_score_bound(&self, _s: Game<char>) {
    }

    fn score(&self, s: &Game<char>) -> i8 {
        match s.board.is_winner('O') {
            Some(true) => 1,
            Some(false) => -1,
            None => 0,
        }
    }
}

fn opening() -> Game<char> {
    let board = Board::from(vec![(0, 'X'), (1, 'X')]);
    Game { board, to_move: 'O', waiting: 'X' }
}

#[test]
fn negamax_blocks_the_immediate_threat() {
    let mut engine: Negamax<char, (), Game<char>, OWinLoss> =
        Negamax::with_hueristic('O', 2, OWinLoss);
    let chosen = engine.take_turn(opening());
    assert_eq!(Some('O'), chosen.board.c2, "the engine must block cell 2");
    assert_eq!('X', chosen.to_move);
    assert_eq!('O', chosen.waiting);
}

#[test]
fn negamax_is_deterministic() {
    let mut engine: Negamax<char, (), Game<char>, OWinLoss> =
        Negamax::with_hueristic('O', 2, OWinLoss);
    let first = engine.take_turn(opening());
    let second = engine.take_turn(opening());
    assert_eq!(first, second);

    let mut other: Negamax<char, (), Game<char>, OWinLoss> =
        Negamax::with_hueristic('O', 2, OWinLoss);
    assert_eq!(first, other.take_turn(opening()));
}

#[test]
fn game_enumerates_successors_in_cell_order() {
    let g = opening();
    let succs = g.next_possibilities().expect("the opening is not terminal");
    assert_eq!(7, succs.len());
    assert_eq!(Some('O'), succs[0].board.c2);
    assert_eq!(Some('O'), succs[1].board.c3);
    assert_eq!(Some('O'), succs[6].board.c8);
    for s in &succs {
        assert_eq!('X', s.to_move);
        assert_eq!('O', s.waiting);
    }
}

#[test]
fn game_without_moves_enumerates_nothing() {
    let board = Board::from(vec![(0, 'X'), (1, 'X'), (2, 'X')]);
    let g = Game { board, to_move: 'O', waiting: 'X' };
    assert!(g.next_possibilities().is_none());
}
