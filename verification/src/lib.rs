//! A functional, turn-based game engine: positions expose their status, actions
//! are composable fallible transitions between positions, and players map a
//! position to the position after their move.

use vstd::prelude::*;

pub mod ai;
pub mod combinator;
pub mod driver;
pub mod numberguesser;
pub mod tictactoe;

verus! {

/// Whether a position can still be played on, or ends the game.
#[derive(Debug, PartialEq, Eq, Structural, Copy, Clone)]
pub enum Status {
    Valid,
    Terminal,
}

/// A game position. `E` is the position-specific error raised when the status
/// of a position cannot be determined (for example, no move has been made yet).
pub trait State<E>: Sized {
    /// Well-formedness of a position; constructors of each position type
    /// establish it and every transition of the engine preserves it.
    spec fn wf(&self) -> bool;

    /// The status that `status` returns, as a pure function of the position.
    spec fn spec_status(&self) -> Result<Status, E>;

    fn status(&self) -> (r: Result<Status, E>)
        requires
            self.wf(),
        ensures
            r == self.spec_status(),
    ;
}

/// The status of a position is a pure function of its content: structurally
/// equal positions always report the same status.
pub proof fn lemma_status_congruent<E, S: State<E>>(p1: S, p2: S)
    requires
        p1 == p2,
    ensures
        p1.spec_status() == p2.spec_status(),
{
}

/// A position that can enumerate its legal successor positions, in a
/// deterministic, stable order. `next_possibilities` returns `None` when the
/// position is terminal or has no legal moves.
pub trait FiniteState<E>: State<E> {
    spec fn spec_next_possibilities(&self) -> Option<Seq<Self>>;

    /// Successors of a well-formed position are themselves well formed.
    proof fn lemma_possibilities_wf(&self)
        requires
            self.wf(),
        ensures
            self.spec_next_possibilities() matches Some(succs) ==> forall|i: int|
                0 <= i < succs.len() ==> (#[trigger] succs[i]).wf(),
    ;

    fn next_possibilities(&self) -> (r: Option<Vec<Self>>)
        requires
            self.wf(),
        ensures
            match r {
                Some(v) => self.spec_next_possibilities() == Some(v@),
                None => self.spec_next_possibilities() is None,
            },
    ;
}

/// A fallible transition from a position of type `S1` to one of type `S2`,
/// both positions of a game whose status error is `SE`; `AE` is the action's
/// own error. Applying an action may also advance internal bookkeeping owned
/// by the action (a ply counter, a player, a sink), so the contract is a
/// relation over the action value before and after the call.
pub trait Action<AE, SE, S1, S2>: Sized where S1: State<SE>, S2: State<SE> {
    /// When this action may be applied to `input`.
    spec fn enabled(&self, input: &S1) -> bool;

    /// How one call of `apply` relates the action and its result to the
    /// action and position before the call.
    spec fn transition(pre: Self, input: S1, post: Self, r: Result<S2, AE>) -> bool;

    fn apply(&mut self, state: S1) -> (r: Result<S2, AE>)
        requires
            old(self).enabled(&state),
        ensures
            Self::transition(*old(self), state, *final(self), r),
    ;

    /// Map over the result of an action.
    fn map<S3: State<SE>, F: Transform<S2, S3>>(self, f: F) -> (r: Mapped<Self, F, S2>)
        ensures
            r.prev == self,
            r.f == f,
    {
        Mapped { prev: self, f, marker: core::marker::PhantomData }
    }
}

/// A pure, total-on-its-domain function value used by the combinators:
/// `call` may assume `accepts` and returns exactly `image`.
pub trait Transform<X, Y>: Sized {
    spec fn accepts(&self, x: &X) -> bool;

    spec fn image(&self, x: X) -> Y;

    fn call(&self, x: X) -> (y: Y)
        requires
            self.accepts(&x),
        ensures
            y == self.image(x),
    ;
}

/// A pure predicate over positions, used by `if_then_else`.
pub trait Condition<X> {
    spec fn holds(&self, x: &X) -> bool;

    fn test(&self, x: &X) -> (b: bool)
        ensures
            b == self.holds(x),
    ;
}

/// Applies `prev`, then transforms a successful result with the pure
/// function `f`; errors pass through unchanged. The marker pins down the
/// intermediate position type `S2` that `prev` produces and `f` consumes.
pub struct Mapped<A, F, S> {
    pub prev: A,
    pub f: F,
    pub marker: core::marker::PhantomData<S>,
}

impl<AE, SE, S1, S2, S3, A, F> Action<AE, SE, S1, S3> for Mapped<A, F, S2> where
    S1: State<SE>,
    S2: State<SE>,
    S3: State<SE>,
    A: Action<AE, SE, S1, S2>,
    F: Transform<S2, S3>,
 {
    open spec fn enabled(&self, input: &S1) -> bool {
        &&& self.prev.enabled(input)
        &&& forall|a2: A, s2: S2|
            #[trigger] A::transition(self.prev, *input, a2, Ok(s2)) ==> self.f.accepts(&s2)
    }

    open spec fn transition(pre: Self, input: S1, post: Self, r: Result<S3, AE>) -> bool {
        &&& post.f == pre.f
        &&& {
            ||| (exists|s2: S2|
                #[trigger] A::transition(pre.prev, input, post.prev, Ok(s2)) && r == Ok::<
                    S3,
                    AE,
                >(pre.f.image(s2)))
            ||| (exists|e: AE|
                #[trigger] A::transition(pre.prev, input, post.prev, Err(e)) && r == Err::<
                    S3,
                    AE,
                >(e))
        }
    }

    fn apply(&mut self, state: S1) -> (r: Result<S3, AE>) {
        let ghost pre_prev = self.prev;
        match self.prev.apply(state) {
            Ok(s) => {
                proof {
                    assert(A::transition(pre_prev, state, self.prev, Ok(s)));
                }
                let y = self.f.call(s);
                Ok(y)
            },
            Err(err) => {
                proof {
                    assert(A::transition(pre_prev, state, self.prev, Err(err)));
                }
                Err(err)
            },
        }
    }
}

/// A player of a game over positions `S`: given a position it is ready for,
/// it returns the position after its move.
pub trait Player<S>: Sized {
    /// The positions on which this player promises to move.
    spec fn ready(&self, s: &S) -> bool;

    /// How a move relates the player and the returned position to the player
    /// and position before the move.
    spec fn turn(pre: Self, s: S, post: Self, r: S) -> bool;

    fn take_turn(&mut self, state: S) -> (r: S)
        requires
            old(self).ready(&state),
        ensures
            Self::turn(*old(self), state, *final(self), r),
    ;
}

/// A position that can be serialized to a deterministic byte sequence.
pub trait AsBytes {
    /// The values that can be serialized; a position whose rendering is not
    /// yet defined (say, before any move was made) is excluded here.
    spec fn renderable(&self) -> bool;

    spec fn spec_bytes(&self) -> Seq<u8>;

    /// Casts the input type to a byte sequence.
    fn as_bytes(&self) -> (r: Vec<u8>)
        requires
            self.renderable(),
        ensures
            r@ == self.spec_bytes(),
    ;
}

impl AsBytes for u8 {
    open spec fn renderable(&self) -> bool {
        true
    }

    open spec fn spec_bytes(&self) -> Seq<u8> {
        seq![*self]
    }

    fn as_bytes(&self) -> (r: Vec<u8>) {
        let mut v: Vec<u8> = Vec::new();
        v.push(*self);
        proof {
            assert(v@ =~= seq![*self]);
        }
        v
    }
}

/// The error surfaced when a sink rejects a write.
#[derive(Debug, PartialEq, Eq, Structural, Copy, Clone)]
pub struct SinkError;

/// An abstract writable byte sink; rendering writes position snapshots to it.
pub trait Sink: Sized {
    /// How one write relates the sink after the call to the sink before it.
    spec fn wrote(pre: Self, bytes: Vec<u8>, post: Self, r: Result<(), SinkError>) -> bool;

    fn write_all(&mut self, bytes: &Vec<u8>) -> (r: Result<(), SinkError>)
        ensures
            Self::wrote(*old(self), *bytes, *final(self), r),
    ;
}

/// An in-memory sink that records every byte written to it and never fails.
pub struct BufferSink {
    pub data: Vec<u8>,
}

impl BufferSink {
    pub fn new() -> (s: Self)
        ensures
            s.data@ == Seq::<u8>::empty(),
    {
        BufferSink { data: Vec::new() }
    }
}

impl Sink for BufferSink {
    open spec fn wrote(pre: Self, bytes: Vec<u8>, post: Self, r: Result<(), SinkError>) -> bool {
        &&& post.data@ == pre.data@ + bytes@
        &&& r is Ok
    }

    fn write_all(&mut self, bytes: &Vec<u8>) -> (r: Result<(), SinkError>) {
        let mut i: usize = 0;
        while i < bytes.len()
            invariant
                i <= bytes.len(),
                self.data@ == old(self).data@ + bytes@.take(i as int),
            decreases bytes.len() - i,
        {
            self.data.push(bytes[i]);
            i = i + 1;
        }
        proof {
            assert(bytes@.take(bytes@.len() as int) =~= bytes@);
            assert(self.data@ =~= old(self).data@ + bytes@);
        }
        Ok(())
    }
}

} // verus!
