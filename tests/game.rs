use tictactoe::board::{interpret_key, Board, Command, Square, Turn};
use tictactoe::engine::TicTacToeAI;

const E: Square = Square::Empty;
const X: Square = Square::X;
const O: Square = Square::O;

fn cells(b: &Board) -> Vec<Square> {
    let mut v = Vec::new();
    for i in 0..3 {
        for j in 0..3 {
            v.push(b.get_square(i, j));
        }
    }
    v
}

fn all_boards() -> Vec<Board> {
    let marks = [X, O, E];
    let mut out = Vec::new();
    for code in 0..19683u32 {
        let mut c = code;
        let mut state = [[E; 3]; 3];
        for k in 0..9 {
            state[k / 3][k % 3] = marks[(c % 3) as usize];
            c /= 3;
        }
        out.push(Board::from_state(state));
    }
    out
}

#[test]
fn new_board_is_empty_and_x_moves() {
    let b = Board::new();
    assert_eq!(cells(&b), vec![E; 9]);
    assert_eq!(b.turn(), Turn::X);
    assert!(!b.accepts());
    assert_eq!(b.evaluate(Turn::X), 0);
}

#[test]
fn from_state_reads_rows_then_columns() {
    let b = Board::from_state([[X, E, O], [E, X, E], [O, E, E]]);
    assert_eq!(cells(&b), vec![X, E, O, E, X, E, O, E, E]);
    assert_eq!(b.get_square(0, 2), O);
    assert_eq!(b.get_square(2, 0), O);
    assert_eq!(b.turn(), Turn::X);
}

#[test]
fn turn_alternates_with_mark_count() {
    let b = Board::from_state([[X, E, E], [E, E, E], [E, E, E]]);
    assert_eq!(b.turn(), Turn::O);
    let b = Board::from_state([[X, O, E], [E, E, E], [E, E, E]]);
    assert_eq!(b.turn(), Turn::X);
}

#[test]
fn other_and_to_square() {
    assert_eq!(Turn::X.other(), Turn::O);
    assert_eq!(Turn::O.other(), Turn::X);
    assert_eq!(Turn::X.to_square(), X);
    assert_eq!(Turn::O.to_square(), O);
}

#[test]
fn try_move_places_mark_and_keeps_input() {
    let b = Board::new();
    let r = Board::try_move(&b, 7, Turn::X).unwrap();
    assert_eq!(cells(&r), vec![E, E, E, E, E, E, X, E, E]);
    assert_eq!(cells(&b), vec![E; 9]);
    let r = Board::try_move(&b, 1, Turn::O).unwrap();
    assert_eq!(r.get_square(0, 0), O);
    let r = Board::try_move(&b, 9, Turn::X).unwrap();
    assert_eq!(r.get_square(2, 2), X);
}

#[test]
fn try_move_rejects_out_of_range_and_taken_cells() {
    let b = Board::from_state([[X, E, E], [E, E, E], [E, E, E]]);
    assert_eq!(Board::try_move(&b, 1, Turn::O), None);
    assert_eq!(Board::try_move(&b, 0, Turn::O), None);
    assert_eq!(Board::try_move(&b, 10, Turn::O), None);
    assert_eq!(Board::try_move(&b, -3, Turn::O), None);
}

#[test]
fn completing_a_row_wins() {
    let b = Board::from_state([[X, X, E], [O, O, E], [E, E, E]]);
    assert_eq!(b.turn(), Turn::X);
    assert!(!b.accepts());
    let r = Board::try_move(&b, 3, Turn::X).unwrap();
    assert!(r.accepts());
    assert_eq!(r.evaluate(Turn::X), 1);
    assert_eq!(r.evaluate(Turn::O), -1);
}

#[test]
fn columns_and_diagonals_count_as_lines() {
    let col = Board::from_state([[E, O, X], [E, O, X], [X, E, X]]);
    assert_eq!(col.evaluate(Turn::X), 1);
    let diag = Board::from_state([[O, X, X], [E, O, X], [E, E, O]]);
    assert_eq!(diag.evaluate(Turn::O), 1);
    assert_eq!(diag.evaluate(Turn::X), -1);
    let anti = Board::from_state([[O, O, X], [E, X, E], [X, E, E]]);
    assert_eq!(anti.evaluate(Turn::X), 1);
    assert!(anti.accepts());
}

#[test]
fn both_lines_favour_the_asked_side() {
    let b = Board::from_state([[X, X, X], [O, O, O], [E, E, E]]);
    assert_eq!(b.evaluate(Turn::X), 1);
    assert_eq!(b.evaluate(Turn::O), 1);
}

#[test]
fn full_board_without_line_is_terminal_draw() {
    let b = Board::from_state([[X, O, X], [X, O, O], [O, X, X]]);
    assert!(b.accepts());
    assert_eq!(b.evaluate(Turn::X), 0);
    assert_eq!(b.outcome(), "The game is drawn.");
    assert!(b.succ(Turn::X).is_empty());
}

#[test]
fn outcome_texts() {
    let x = Board::from_state([[X, X, X], [O, O, E], [E, E, E]]);
    assert_eq!(x.outcome(), "Player 1 (X) wins!");
    let o = Board::from_state([[O, X, X], [E, O, X], [E, E, O]]);
    assert_eq!(o.outcome(), "Player 2 (O) wins!");
    assert_eq!(Board::new().outcome(), "The game is not yet decided.");
}

#[test]
fn evaluate_is_antisymmetric_when_one_side_has_a_line() {
    for b in all_boards() {
        for t in [Turn::X, Turn::O] {
            let s = b.evaluate(t);
            let u = b.evaluate(t.other());
            let both = b.evaluate(Turn::X) == 1 && b.evaluate(Turn::O) == 1;
            if !both && s != 0 {
                assert_eq!(s, -u);
            }
        }
    }
}

#[test]
fn accepts_iff_line_or_full() {
    for b in all_boards() {
        let line = b.evaluate(Turn::X) != 0 || b.evaluate(Turn::O) != 0;
        let full = !cells(&b).contains(&E);
        assert_eq!(b.accepts(), line || full);
    }
}

#[test]
fn succ_matches_empty_cells() {
    let b = Board::from_state([[X, E, O], [E, E, X], [O, E, E]]);
    for t in [Turn::X, Turn::O] {
        let s = b.succ(t);
        let before = cells(&b);
        let empties: Vec<usize> = (0..9).filter(|&k| before[k] == E).collect();
        assert_eq!(s.len(), empties.len());
        for (n, child) in s.iter().enumerate() {
            let after = cells(child);
            let diff: Vec<usize> = (0..9).filter(|&k| after[k] != before[k]).collect();
            assert_eq!(diff, vec![empties[n]]);
            assert_eq!(after[empties[n]], t.to_square());
        }
        for i in 0..s.len() {
            for j in (i + 1)..s.len() {
                assert_ne!(s[i], s[j]);
            }
        }
    }
}

#[test]
fn succ_after_center_gives_eight_boards() {
    let b = Board::try_move(&Board::new(), 5, Turn::X).unwrap();
    assert_eq!(b.turn(), Turn::O);
    let s = b.succ(Turn::O);
    assert_eq!(s.len(), 8);
    let positions: Vec<usize> = s
        .iter()
        .map(|c| cells(c).iter().position(|&m| m == O).unwrap())
        .collect();
    assert_eq!(positions, vec![0, 1, 2, 3, 5, 6, 7, 8]);
    for c in &s {
        assert_eq!(c.get_square(1, 1), X);
        assert_eq!(cells(c).iter().filter(|&&m| m == O).count(), 1);
    }
}

#[test]
fn empty_board_is_a_draw_for_both_engines() {
    let mut x = TicTacToeAI::from_turn(Turn::X);
    assert_eq!(x.eval(Board::new(), Turn::X), 0);
    let mut o = TicTacToeAI::from_turn(Turn::O);
    assert_eq!(o.eval(Board::new(), Turn::X), 0);
}

#[test]
fn repeated_evaluation_is_a_cache_hit() {
    let mut ai = TicTacToeAI::from_turn(Turn::O);
    assert_eq!(ai.cache_len(), 0);
    let b = Board::from_state([[X, E, E], [E, E, E], [E, E, E]]);
    let first = ai.eval(b, Turn::O);
    let size = ai.cache_len();
    assert!(size > 0);
    let second = ai.eval(b, Turn::O);
    assert_eq!(first, second);
    assert_eq!(ai.cache_len(), size);
}

#[test]
fn forced_win_scores_one() {
    // X to move with two open threats on the board: a win for X.
    let b = Board::from_state([[X, E, E], [E, X, O], [E, E, O]]);
    assert_eq!(b.turn(), Turn::X);
    let mut x = TicTacToeAI::from_turn(Turn::X);
    assert_eq!(x.eval(b, Turn::X), 1);
    let mut o = TicTacToeAI::from_turn(Turn::O);
    assert_eq!(o.eval(b, Turn::X), -1);
}

#[test]
fn terminal_board_scores_its_result() {
    let b = Board::from_state([[X, X, X], [O, O, E], [E, E, E]]);
    let mut o = TicTacToeAI::from_turn(Turn::O);
    assert_eq!(o.eval(b, Turn::O), -1);
    assert_eq!(o.cache_len(), 1);
}

#[test]
fn default_engine_plays_x() {
    let mut ai = TicTacToeAI::default();
    assert_eq!(ai.cache_len(), 0);
    let b = Board::from_state([[X, X, E], [O, O, E], [E, E, E]]);
    assert_eq!(ai.eval(b, Turn::X), 1);
}

#[test]
fn choose_move_takes_an_instant_win() {
    let b = Board::from_state([[X, X, E], [O, O, E], [X, E, E]]);
    assert_eq!(b.turn(), Turn::O);
    let mut ai = TicTacToeAI::from_turn(Turn::O);
    let r = ai.choose_move(b);
    assert_eq!(cells(&r), vec![X, X, E, O, O, O, X, E, E]);
    assert_eq!(r.evaluate(Turn::O), 1);
}

#[test]
fn choose_move_blocks_a_threat() {
    let b = Board::from_state([[X, X, E], [E, O, E], [E, E, E]]);
    let mut ai = TicTacToeAI::from_turn(Turn::O);
    let r = ai.choose_move(b);
    assert_eq!(r.get_square(0, 2), O);
}

#[test]
fn choose_move_never_loses_from_the_empty_board() {
    let mut ai = TicTacToeAI::from_turn(Turn::X);
    let r = ai.choose_move(Board::new());
    assert_eq!(cells(&r).iter().filter(|&&m| m == X).count(), 1);
    assert_eq!(ai.eval(r, Turn::O), 0);
}

#[test]
fn interpret_key_cases() {
    let b = Board::from_state([[X, E, E], [E, E, E], [E, E, E]]);
    assert_eq!(interpret_key(&b, 0, Turn::O), Command::Quit);
    assert_eq!(interpret_key(&b, 11, Turn::O), Command::OutOfRange);
    assert_eq!(interpret_key(&b, -1, Turn::O), Command::OutOfRange);
    assert_eq!(interpret_key(&b, 1, Turn::O), Command::Occupied);
    match interpret_key(&b, 2, Turn::O) {
        Command::Moved(r) => assert_eq!(cells(&r), vec![X, O, E, E, E, E, E, E, E]),
        other => panic!("unexpected {:?}", other),
    }
}
