use ax::numberguesser::{NoGuess, State as Guessing};
use ax::{AsBytes, State, Status};

#[test]
fn status_before_any_guess_is_an_error() {
    let s = Guessing::with_number(0, 100, 42);
    assert!(matches!(s.status(), Err(NoGuess)));
}

#[test]
fn status_of_a_wrong_guess_is_valid() {
    let s = Guessing::with_number(0, 100, 42);
    assert_eq!(Ok(Status::Valid), s.guess(41).status());
    assert_eq!(Ok(Status::Valid), s.guess(43).status());
}

#[test]
fn status_of_the_right_guess_is_terminal() {
    let s = Guessing::with_number(0, 100, 42);
    assert_eq!(Ok(Status::Terminal), s.guess(42).status());
}

#[test]
fn correct_guess_renders_exact_bytes() {
    let s = Guessing::with_number(0, 100, 42).guess(42);
    assert_eq!(b"Correct!\n".to_vec(), s.as_bytes());
}

#[test]
fn high_and_low_guesses_render_hints() {
    let s = Guessing::with_number(0, 100, 42);
    assert_eq!(b"Too high.\n".to_vec(), s.guess(50).as_bytes());
    assert_eq!(b"Too low.\n".to_vec(), s.guess(3).as_bytes());
}

#[test]
fn equal_positions_report_equal_status() {
    let a = Guessing::with_number(0, 100, 42).guess(7);
    let b = Guessing::with_number(0, 100, 42).guess(7);
    assert_eq!(a, b);
    assert_eq!(a.status(), b.status());
}

#[test]
fn guessing_replaces_the_previous_guess() {
    let s = Guessing::with_number(-5, 5, 0).guess(4).guess(0);
    assert_eq!(Ok(Status::Terminal), s.status());
}
