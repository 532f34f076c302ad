//! The "I'm thinking of a number" game: the player guesses a hidden number
//! and the rendered position says whether the last guess was too high, too
//! low, or correct.

use vstd::prelude::*;

use crate::{AsBytes, Status};

verus! {

/// A position of the number-guessing game: the hidden number, the inclusive
/// bounds it was drawn from, and the most recent guess, if any.
#[derive(Debug, PartialEq, Copy, Clone)]
pub struct State {
    pub guess: Option<i64>,
    pub number: i64,
    pub low: i64,
    pub high: i64,
}

/// The error raised when the status of a position is asked for before any
/// guess was made.
#[derive(Debug, PartialEq, Eq, Structural)]
pub struct NoGuess;

impl State {
    /// Initializes a game state where the player must guess the provided
    /// number.
    pub fn with_number(low: i64, high: i64, number: i64) -> (r: Self)
        ensures
            r == (State { guess: None, number, low, high }),
    {
        State { guess: None, number, low, high }
    }

    /// Allows the player to make a guess.
    pub fn guess(self, n: i64) -> (r: Self)
        ensures
            r == (State { guess: Some(n), ..self }),
    {
        State { guess: Some(n), ..self }
    }
}

impl crate::State<NoGuess> for State {
    open spec fn wf(&self) -> bool {
        true
    }

    /// The position is terminal exactly when the guess equals the number; it
    /// is in error when no guess has been made yet.
    open spec fn spec_status(&self) -> Result<Status, NoGuess> {
        match self.guess {
            None => Err(NoGuess),
            Some(g) => if g == self.number {
                Ok(Status::Terminal)
            } else {
                Ok(Status::Valid)
            },
        }
    }

    fn status(&self) -> (r: Result<Status, NoGuess>) {
        match self.guess {
            None => Err(NoGuess),
            Some(g) => if g == self.number {
                Ok(Status::Terminal)
            } else {
                Ok(Status::Valid)
            },
        }
    }
}

/// The bytes of `"Too high.\n"`.
pub open spec fn msg_too_high() -> Seq<u8> {
    seq![84u8, 111u8, 111u8, 32u8, 104u8, 105u8, 103u8, 104u8, 46u8, 10u8]
}

/// The bytes of `"Too low.\n"`.
pub open spec fn msg_too_low() -> Seq<u8> {
    seq![84u8, 111u8, 111u8, 32u8, 108u8, 111u8, 119u8, 46u8, 10u8]
}

/// The bytes of `"Correct!\n"`.
pub open spec fn msg_correct() -> Seq<u8> {
    seq![67u8, 111u8, 114u8, 114u8, 101u8, 99u8, 116u8, 33u8, 10u8]
}

impl AsBytes for State {
    /// A position renders only once a guess was made.
    open spec fn renderable(&self) -> bool {
        self.guess is Some
    }

    /// `"Too high.\n"`, `"Too low.\n"` or `"Correct!\n"`, by how the guess
    /// compares to the number.
    open spec fn spec_bytes(&self) -> Seq<u8> {
        if self.guess.unwrap() > self.number {
            msg_too_high()
        } else if self.guess.unwrap() < self.number {
            msg_too_low()
        } else {
            msg_correct()
        }
    }

    fn as_bytes(&self) -> (r: Vec<u8>) {
        let g = match self.guess {
            Some(g) => g,
            None => 0,
        };
        let mut v: Vec<u8> = Vec::new();
        if g > self.number {
            v.push(84);
            v.push(111);
            v.push(111);
            v.push(32);
            v.push(104);
            v.push(105);
            v.push(103);
            v.push(104);
            v.push(46);
            v.push(10);
            proof {
                assert(v@ =~= msg_too_high());
            }
        } else if g < self.number {
            v.push(84);
            v.push(111);
            v.push(111);
            v.push(32);
            v.push(108);
            v.push(111);
            v.push(119);
            v.push(46);
            v.push(10);
            proof {
                assert(v@ =~= msg_too_low());
            }
        } else {
            v.push(67);
            v.push(111);
            v.push(114);
            v.push(114);
            v.push(101);
            v.push(99);
            v.push(116);
            v.push(33);
            v.push(10);
            proof {
                assert(v@ =~= msg_correct());
            }
        }
        v
    }
}

} // verus!
