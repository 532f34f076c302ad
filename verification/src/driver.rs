//! The turn-loop driver: a composition of the action algebra that alternates
//! two players over successive plies, renders every resulting position, and
//! stops on the first definite terminal position.

use vstd::prelude::*;

use crate::combinator::{
    Compose, Either, EnumerateAction, IfThenElse, MapErr, MapResult, Render, RepeatUntilTerminal,
    TakeTurn,
};
use crate::{Action, AsBytes, Condition, Player, Sink, SinkError, State, Transform};

verus! {

/// Routes even plies to the first branch: holds exactly when the ply index
/// attached to the position is even.
#[derive(Debug, PartialEq, Eq, Structural, Copy, Clone)]
pub struct ParityEven;

impl<S> Condition<(usize, S)> for ParityEven {
    open spec fn holds(&self, x: &(usize, S)) -> bool {
        x.0 % 2 == 0
    }

    fn test(&self, x: &(usize, S)) -> (b: bool) {
        x.0 % 2 == 0
    }
}

/// Adapts an action over positions to one over indexed positions by
/// discarding the index.
pub struct Unindexed<A> {
    pub action: A,
}

impl<AE, SE, S1, S2, A> Action<AE, SE, (usize, S1), S2> for Unindexed<A> where
    S1: State<SE>,
    S2: State<SE>,
    A: Action<AE, SE, S1, S2>,
 {
    open spec fn enabled(&self, input: &(usize, S1)) -> bool {
        self.action.enabled(&input.1)
    }

    open spec fn transition(pre: Self, input: (usize, S1), post: Self, r: Result<S2, AE>) -> bool {
        A::transition(pre.action, input.1, post.action, r)
    }

    fn apply(&mut self, state: (usize, S1)) -> (r: Result<S2, AE>) {
        self.action.apply(state.1)
    }
}

/// Collapses the `Either`-tagged outcome of a parity branch whose two sides
/// share one position and one error type back into a single result.
#[derive(Debug, PartialEq, Eq, Structural, Copy, Clone)]
pub struct UnifyEither;

impl<S> Transform<Result<Either<S, S>, Either<(), ()>>, Result<S, ()>> for UnifyEither {
    open spec fn accepts(&self, x: &Result<Either<S, S>, Either<(), ()>>) -> bool {
        true
    }

    open spec fn image(&self, x: Result<Either<S, S>, Either<(), ()>>) -> Result<S, ()> {
        match x {
            Ok(e) => match e {
                Either::Left(s) => Ok(s),
                Either::Right(s) => Ok(s),
            },
            Err(e) => match e {
                Either::Left(u) => Err(u),
                Either::Right(u) => Err(u),
            },
        }
    }

    fn call(&self, x: Result<Either<S, S>, Either<(), ()>>) -> (y: Result<S, ()>) {
        match x {
            Ok(e) => match e {
                Either::Left(s) => Ok(s),
                Either::Right(s) => Ok(s),
            },
            Err(e) => match e {
                Either::Left(u) => Err(u),
                Either::Right(u) => Err(u),
            },
        }
    }
}

/// Maps a sink failure to the loop's unit error.
#[derive(Debug, PartialEq, Eq, Structural, Copy, Clone)]
pub struct ToUnit;

impl Transform<SinkError, ()> for ToUnit {
    open spec fn accepts(&self, x: &SinkError) -> bool {
        true
    }

    open spec fn image(&self, x: SinkError) -> () {
        ()
    }

    fn call(&self, x: SinkError) -> (y: ()) {
        ()
    }
}

/// The composed pipeline the driver runs: tag each position with its ply
/// index, route even plies to the first player and odd plies to the second,
/// collapse the tagged outcome, render the resulting position, and repeat
/// until a definite terminal position.
pub type GamePipeline<P1, P2, W, S> = RepeatUntilTerminal<
    Compose<
        MapResult<
            EnumerateAction<
                IfThenElse<ParityEven, Unindexed<TakeTurn<P1>>, Unindexed<TakeTurn<P2>>>,
            >,
            UnifyEither,
            Either<S, S>,
            Either<(), ()>,
        >,
        MapErr<Render<W>, ToUnit, SinkError>,
        S,
    >,
>;

/// Whether `pipe` is the driver's pipeline built from the two players and
/// the sink, with its ply counter at zero.
pub open spec fn is_game_pipeline<SE, S, P1, P2, W>(
    pipe: GamePipeline<P1, P2, W, S>,
    p1: P1,
    p2: P2,
    out: W,
) -> bool where S: State<SE>, P1: Player<S>, P2: Player<S>, W: Sink {
    &&& pipe.action.first.prev.index == 0
    &&& pipe.action.first.prev.action.cond == ParityEven
    &&& pipe.action.first.prev.action.a == (Unindexed { action: TakeTurn { player: p1 } })
    &&& pipe.action.first.prev.action.b == (Unindexed { action: TakeTurn { player: p2 } })
    &&& pipe.action.first.f == UnifyEither
    &&& pipe.action.second.prev.out == out
    &&& pipe.action.second.f == ToUnit
}

/// Drives a whole game: renders the initial position once, then alternates
/// the two players from ply 0, rendering after every successful ply, until
/// the first definite terminal position, which is returned. A write failure
/// or a branch error aborts the loop with the unit error.
pub fn play_tic_tac_toe<SE, S, P1, P2, W>(p1: P1, p2: P2, out: W, initial: S) -> (r: Result<
    S,
    (),
>) where S: State<SE> + AsBytes, P1: Player<S>, P2: Player<S>, W: Sink
    requires
        initial.renderable(),
        forall|pipe: GamePipeline<P1, P2, W, S>, w2: W|
            #[trigger] is_game_pipeline(pipe, p1, p2, w2) ==> <GamePipeline<P1, P2, W, S> as Action<
                (),
                SE,
                S,
                S,
            >>::enabled(&pipe, &initial),
    ensures
        exists|bv: Vec<u8>, w2: W, r0: Result<(), SinkError>|
            {
                &&& bv@ == initial.spec_bytes()
                &&& #[trigger] W::wrote(out, bv, w2, r0)
                &&& match r0 {
                    Err(_) => r == Err::<S, ()>(()),
                    Ok(_) => exists|
                        pipe: GamePipeline<P1, P2, W, S>,
                        post: GamePipeline<P1, P2, W, S>,
                    |
                        is_game_pipeline(pipe, p1, p2, w2) && #[trigger] <GamePipeline<
                            P1,
                            P2,
                            W,
                            S,
                        > as Action<(), SE, S, S>>::transition(pipe, initial, post, r),
                }
            },
{
    let bytes = initial.as_bytes();
    let mut sink = out;
    let ghost out0 = sink;
    let primed = sink.write_all(&bytes);
    proof {
        assert(W::wrote(out0, bytes, sink, primed));
    }
    match primed {
        Err(_) => Err(()),
        Ok(_) => {
            let mut pipe: GamePipeline<P1, P2, W, S> = RepeatUntilTerminal {
                action: Compose {
                    first: MapResult {
                        prev: EnumerateAction {
                            action: IfThenElse {
                                cond: ParityEven,
                                a: Unindexed { action: TakeTurn { player: p1 } },
                                b: Unindexed { action: TakeTurn { player: p2 } },
                            },
                            index: 0,
                        },
                        f: UnifyEither,
                        marker: core::marker::PhantomData,
                    },
                    second: MapErr {
                        prev: Render { out: sink },
                        f: ToUnit,
                        marker: core::marker::PhantomData,
                    },
                    marker: core::marker::PhantomData,
                },
            };
            let ghost pipe0 = pipe;
            let ghost w2 = pipe.action.second.prev.out;
            proof {
                assert(is_game_pipeline(pipe0, p1, p2, w2));
            }
            let r = pipe.apply(initial);
            proof {
                assert(<GamePipeline<P1, P2, W, S> as Action<(), SE, S, S>>::transition(
                    pipe0,
                    initial,
                    pipe,
                    r,
                ));
            }
            r
        },
    }
}

} // verus!
