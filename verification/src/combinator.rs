//! Combinators that build complex, fallible position transitions out of
//! smaller ones, preserving left-to-right short-circuit semantics: when an
//! earlier action fails, later actions never run and the first error is
//! surfaced unchanged.

use vstd::prelude::*;

use crate::{Action, AsBytes, Condition, Mapped, Player, Sink, SinkError, State, Status, Transform};

verus! {

/// Map the pure function `f` over the result of an action.
pub fn map<AE, SE, S1, S2, S3, A, F>(action: A, f: F) -> (r: Mapped<A, F, S2>) where
    S1: State<SE>,
    S2: State<SE>,
    S3: State<SE>,
    A: Action<AE, SE, S1, S2>,
    F: Transform<S2, S3>,

    ensures
        r.prev == action,
        r.f == f,
{
    Mapped { prev: action, f, marker: core::marker::PhantomData }
}

/// Mapping a function that behaves as the identity over an action changes
/// nothing: the mapped action has exactly the behaviours of the action
/// alone, for successes and for errors alike.
pub proof fn lemma_map_identity<AE, SE, S1, S2, A, F>(
    pre: Mapped<A, F, S2>,
    input: S1,
    post: Mapped<A, F, S2>,
    r: Result<S2, AE>,
) where
    S1: State<SE>,
    S2: State<SE>,
    A: Action<AE, SE, S1, S2>,
    F: Transform<S2, S2>,

    requires
        forall|x: S2| #[trigger] pre.f.image(x) == x,
    ensures
        <Mapped<A, F, S2> as Action<AE, SE, S1, S2>>::transition(pre, input, post, r) <==> (
        A::transition(pre.prev, input, post.prev, r) && post.f == pre.f),
{
    if <Mapped<A, F, S2> as Action<AE, SE, S1, S2>>::transition(pre, input, post, r) {
        if exists|s2: S2|
            #[trigger] A::transition(pre.prev, input, post.prev, Ok(s2)) && r == Ok::<S2, AE>(
                pre.f.image(s2),
            ) {
            let s2 = choose|s2: S2|
                #[trigger] A::transition(pre.prev, input, post.prev, Ok(s2)) && r == Ok::<S2, AE>(
                    pre.f.image(s2),
                );
            assert(pre.f.image(s2) == s2);
        }
    }
    if A::transition(pre.prev, input, post.prev, r) && post.f == pre.f {
        match r {
            Ok(s2) => {
                assert(pre.f.image(s2) == s2);
                assert(A::transition(pre.prev, input, post.prev, Ok(s2)) && r == Ok::<S2, AE>(
                    pre.f.image(s2),
                ));
            },
            Err(e) => {
                assert(A::transition(pre.prev, input, post.prev, Err(e)) && r == Err::<S2, AE>(e));
            },
        }
    }
}

/// Applies `prev` and transforms its error with the pure function `f`;
/// successes pass through unchanged.
pub struct MapErr<A, F, E> {
    pub prev: A,
    pub f: F,
    pub marker: core::marker::PhantomData<E>,
}

impl<AE1, AE2, SE, S1, S2, A, F> Action<AE2, SE, S1, S2> for MapErr<A, F, AE1> where
    S1: State<SE>,
    S2: State<SE>,
    A: Action<AE1, SE, S1, S2>,
    F: Transform<AE1, AE2>,
 {
    open spec fn enabled(&self, input: &S1) -> bool {
        &&& self.prev.enabled(input)
        &&& forall|a2: A, e1: AE1|
            #[trigger] A::transition(self.prev, *input, a2, Err(e1)) ==> self.f.accepts(&e1)
    }

    open spec fn transition(pre: Self, input: S1, post: Self, r: Result<S2, AE2>) -> bool {
        &&& post.f == pre.f
        &&& {
            ||| (exists|s2: S2|
                #[trigger] A::transition(pre.prev, input, post.prev, Ok(s2)) && r == Ok::<S2, AE2>(
                    s2,
                ))
            ||| (exists|e1: AE1|
                #[trigger] A::transition(pre.prev, input, post.prev, Err(e1)) && r == Err::<
                    S2,
                    AE2,
                >(pre.f.image(e1)))
        }
    }

    fn apply(&mut self, state: S1) -> (r: Result<S2, AE2>) {
        let ghost pre_prev = self.prev;
        match self.prev.apply(state) {
            Ok(s) => {
                proof {
                    assert(A::transition(pre_prev, state, self.prev, Ok(s)));
                }
                Ok(s)
            },
            Err(e) => {
                proof {
                    assert(A::transition(pre_prev, state, self.prev, Err(e)));
                }
                Err(self.f.call(e))
            },
        }
    }
}

/// Map over the error of an action.
pub fn map_err<AE1, AE2, SE, S1, S2, A, F>(action: A, f: F) -> (r: MapErr<A, F, AE1>) where
    S1: State<SE>,
    S2: State<SE>,
    A: Action<AE1, SE, S1, S2>,
    F: Transform<AE1, AE2>,

    ensures
        r.prev == action,
        r.f == f,
{
    MapErr { prev: action, f, marker: core::marker::PhantomData }
}

/// Sequences two actions sharing an error type: `second` runs only if
/// `first` succeeds, on the position `first` produced.
pub struct Compose<A1, A2, S> {
    pub first: A1,
    pub second: A2,
    pub marker: core::marker::PhantomData<S>,
}

impl<AE, SE, S1, S2, S3, A1, A2> Action<AE, SE, S1, S3> for Compose<A1, A2, S2> where
    S1: State<SE>,
    S2: State<SE>,
    S3: State<SE>,
    A1: Action<AE, SE, S1, S2>,
    A2: Action<AE, SE, S2, S3>,
 {
    open spec fn enabled(&self, input: &S1) -> bool {
        &&& self.first.enabled(input)
        &&& forall|a1: A1, s2: S2|
            #[trigger] A1::transition(self.first, *input, a1, Ok(s2)) ==> self.second.enabled(&s2)
    }

    open spec fn transition(pre: Self, input: S1, post: Self, r: Result<S3, AE>) -> bool {
        ||| (exists|s2: S2|
            #[trigger] A1::transition(pre.first, input, post.first, Ok(s2)) && A2::transition(
                pre.second,
                s2,
                post.second,
                r,
            ))
        ||| (exists|e: AE|
            #[trigger] A1::transition(pre.first, input, post.first, Err(e)) && post.second
                == pre.second && r == Err::<S3, AE>(e))
    }

    fn apply(&mut self, state: S1) -> (r: Result<S3, AE>) {
        let ghost pre_first = self.first;
        let ghost pre_second = self.second;
        match self.first.apply(state) {
            Ok(s) => {
                let r2 = self.second.apply(s);
                proof {
                    assert(A1::transition(pre_first, state, self.first, Ok(s)));
                    assert(A2::transition(pre_second, s, self.second, r2));
                }
                r2
            },
            Err(e) => {
                proof {
                    assert(A1::transition(pre_first, state, self.first, Err(e)));
                }
                Err(e)
            },
        }
    }
}

/// Map one action over the result of another: the output of `first` feeds
/// `second`; a failure of either short-circuits.
pub fn map_action<AE, SE, S1, S2, S3, A1, A2>(first: A1, second: A2) -> (r: Compose<
    A1,
    A2,
    S2,
>) where
    S1: State<SE>,
    S2: State<SE>,
    S3: State<SE>,
    A1: Action<AE, SE, S1, S2>,
    A2: Action<AE, SE, S2, S3>,

    ensures
        r.first == first,
        r.second == second,
{
    Compose { first, second, marker: core::marker::PhantomData }
}

/// Applies `prev`, then hands the whole result, success or failure, to the
/// pure function `f`, which may recover from an error, change the error
/// type, or change the success type.
pub struct MapResult<A, F, S, E> {
    pub prev: A,
    pub f: F,
    pub marker: core::marker::PhantomData<(S, E)>,
}

impl<AE1, AE2, SE, S1, S2, S3, A, F> Action<AE2, SE, S1, S3> for MapResult<A, F, S2, AE1> where
    S1: State<SE>,
    S2: State<SE>,
    S3: State<SE>,
    A: Action<AE1, SE, S1, S2>,
    F: Transform<Result<S2, AE1>, Result<S3, AE2>>,
 {
    open spec fn enabled(&self, input: &S1) -> bool {
        &&& self.prev.enabled(input)
        &&& forall|a2: A, r1: Result<S2, AE1>|
            #[trigger] A::transition(self.prev, *input, a2, r1) ==> self.f.accepts(&r1)
    }

    open spec fn transition(pre: Self, input: S1, post: Self, r: Result<S3, AE2>) -> bool {
        &&& post.f == pre.f
        &&& exists|r1: Result<S2, AE1>|
            #[trigger] A::transition(pre.prev, input, post.prev, r1) && r == pre.f.image(r1)
    }

    fn apply(&mut self, state: S1) -> (r: Result<S3, AE2>) {
        let ghost pre_prev = self.prev;
        let r1 = self.prev.apply(state);
        proof {
            assert(A::transition(pre_prev, state, self.prev, r1));
        }
        self.f.call(r1)
    }
}

/// Hand the whole result of an action to the pure function `f`.
pub fn map_result<AE1, AE2, SE, S1, S2, S3, A, F>(action: A, f: F) -> (r: MapResult<
    A,
    F,
    S2,
    AE1,
>) where
    S1: State<SE>,
    S2: State<SE>,
    S3: State<SE>,
    A: Action<AE1, SE, S1, S2>,
    F: Transform<Result<S2, AE1>, Result<S3, AE2>>,

    ensures
        r.prev == action,
        r.f == f,
{
    MapResult { prev: action, f, marker: core::marker::PhantomData }
}

/// Applies `action` exactly `n` times in sequence against an evolving
/// position, short-circuiting on the first failure; zero repetitions return
/// the input position unchanged and unmoved.
pub struct Repeat<A> {
    pub action: A,
    pub n: usize,
}

/// The possible outcomes of `n` chained applications of an action, starting
/// from action state `a` and position `s`: `post` and `r` are a final action
/// state and result that such a run can produce.
pub open spec fn repeat_runs<AE, SE, S, A>(a: A, s: S, post: A, r: Result<S, AE>, n: nat) -> bool
    where S: State<SE>, A: Action<AE, SE, S, S>
    decreases n,
{
    if n == 0 {
        post == a && r == Ok::<S, AE>(s)
    } else {
        exists|mid: A, r1: Result<S, AE>|
            #[trigger] A::transition(a, s, mid, r1) && match r1 {
                Ok(s1) => repeat_runs(mid, s1, post, r, (n - 1) as nat),
                Err(e) => post == mid && r == Err::<S, AE>(e),
            }
    }
}

/// The action is enabled at every point of every run of `n` chained
/// applications from action state `a` and position `s`.
pub open spec fn repeat_enabled<AE, SE, S, A>(a: A, s: S, n: nat) -> bool
    where S: State<SE>, A: Action<AE, SE, S, S>
    decreases n,
{
    n > 0 ==> {
        &&& a.enabled(&s)
        &&& forall|mid: A, s1: S|
            #[trigger] A::transition(a, s, mid, Ok(s1)) ==> repeat_enabled(mid, s1, (n - 1) as nat)
    }
}

impl<AE, SE, S, A> Action<AE, SE, S, S> for Repeat<A> where
    S: State<SE>,
    A: Action<AE, SE, S, S>,
 {
    open spec fn enabled(&self, input: &S) -> bool {
        repeat_enabled(self.action, *input, self.n as nat)
    }

    open spec fn transition(pre: Self, input: S, post: Self, r: Result<S, AE>) -> bool {
        &&& post.n == pre.n
        &&& repeat_runs(pre.action, input, post.action, r, pre.n as nat)
    }

    #[verifier::loop_isolation(false)]
    fn apply(&mut self, state: S) -> (r: Result<S, AE>) {
        let ghost a0 = self.action;
        let ghost s0 = state;
        let n = self.n;
        let mut s = state;
        let mut i: usize = 0;
        let ghost mut rem: nat = n as nat;
        while i < n
            invariant
                i <= n,
                rem == n - i,
                self.n == n,
                repeat_enabled(self.action, s, rem),
                forall|post: A, r2: Result<S, AE>|
                    #[trigger] repeat_runs(self.action, s, post, r2, rem) ==> repeat_runs(
                        a0,
                        s0,
                        post,
                        r2,
                        n as nat,
                    ),
            decreases n - i,
        {
            let ghost cur_a = self.action;
            let ghost cur_s = s;
            match self.action.apply(s) {
                Ok(s1) => {
                    proof {
                        assert(A::transition(cur_a, cur_s, self.action, Ok(s1)));
                        rem = (rem - 1) as nat;
                        assert forall|post: A, r2: Result<S, AE>|
                            #[trigger] repeat_runs(self.action, s1, post, r2, rem) implies
                            repeat_runs(a0, s0, post, r2, n as nat) by {
                            assert(repeat_runs(cur_a, cur_s, post, r2, (rem + 1) as nat));
                        };
                    }
                    s = s1;
                    i = i + 1;
                },
                Err(e) => {
                    proof {
                        assert(A::transition(cur_a, cur_s, self.action, Err(e)));
                        assert(repeat_runs(cur_a, cur_s, self.action, Err(e), rem));
                        assert(repeat_runs(a0, s0, self.action, Err(e), n as nat));
                    }
                    return Err(e);
                },
            }
        }
        proof {
            assert(repeat_runs(self.action, s, self.action, Ok(s), 0));
        }
        Ok(s)
    }
}

/// Repeat an action a specific number of times.
pub fn repeat<AE, SE, S, A>(action: A, n: usize) -> (r: Repeat<A>) where
    S: State<SE>,
    A: Action<AE, SE, S, S>,

    ensures
        r.action == action,
        r.n == n,
{
    Repeat { action, n }
}

/// Repeating an action zero times is a no-op: the only possible outcome is
/// the input position, returned unchanged, with the action unmoved.
pub proof fn lemma_repeat_zero<AE, SE, S, A>(
    pre: Repeat<A>,
    input: S,
    post: Repeat<A>,
    r: Result<S, AE>,
) where S: State<SE>, A: Action<AE, SE, S, S>
    requires
        <Repeat<A> as Action<AE, SE, S, S>>::transition(pre, input, post, r),
        pre.n == 0,
    ensures
        r == Ok::<S, AE>(input),
        post == pre,
{
}

/// Applies `action` repeatedly until a successful application lands on a
/// position whose status is `Terminal`, which is returned; a failed
/// application surfaces its error at once. A position whose status cannot be
/// computed is deliberately treated as non-terminal and the loop continues:
/// the loop only ever stops on a definite terminal status or an action error.
pub struct RepeatUntilTerminal<A> {
    pub action: A,
}

/// The possible outcomes of repeatedly applying an action from action state
/// `a` and position `s` until an error or a definite terminal status, taking
/// at most `fuel` further continuations.
pub open spec fn until_terminal_runs<AE, SE, S, A>(
    a: A,
    s: S,
    post: A,
    r: Result<S, AE>,
    fuel: nat,
) -> bool
    where S: State<SE>, A: Action<AE, SE, S, S>
    decreases fuel,
{
    exists|mid: A, r1: Result<S, AE>|
        #[trigger] A::transition(a, s, mid, r1) && match r1 {
            Ok(s1) => {
                if s1.spec_status() == Ok::<Status, SE>(Status::Terminal) {
                    post == mid && r == Ok::<S, AE>(s1)
                } else {
                    fuel > 0 && until_terminal_runs(mid, s1, post, r, (fuel - 1) as nat)
                }
            },
            Err(e) => post == mid && r == Err::<S, AE>(e),
        }
}

/// The loop of `repeat_until_terminal` can reach action state `mid` and
/// position `sm` after `n` successful, non-terminal applications starting
/// from action state `a` and position `s`.
pub open spec fn until_terminal_reaches<AE, SE, S, A>(a: A, s: S, mid: A, sm: S, n: nat) -> bool
    where S: State<SE>, A: Action<AE, SE, S, S>
    decreases n,
{
    if n == 0 {
        mid == a && sm == s
    } else {
        exists|a1: A, s1: S|
            #[trigger] A::transition(a, s, a1, Ok(s1)) && s1.spec_status() != Ok::<Status, SE>(
                Status::Terminal,
            ) && until_terminal_reaches(a1, s1, mid, sm, (n - 1) as nat)
    }
}

/// Every run of the loop from action state `a` and position `s` stops, with
/// an error or a terminal position, after at most `fuel` continuations.
pub open spec fn until_terminal_halts<AE, SE, S, A>(a: A, s: S, fuel: nat) -> bool
    where S: State<SE>, A: Action<AE, SE, S, S>
    decreases fuel,
{
    forall|mid: A, r1: Result<S, AE>|
        #[trigger] A::transition(a, s, mid, r1) ==> match r1 {
            Ok(s1) => s1.spec_status() == Ok::<Status, SE>(Status::Terminal) || (fuel > 0
                && until_terminal_halts(mid, s1, (fuel - 1) as nat)),
            Err(e) => true,
        }
}

/// A reachable point of the loop, extended by one more successful,
/// non-terminal application, is still reachable.
proof fn lemma_until_terminal_reaches_step<AE, SE, S, A>(
    a: A,
    s: S,
    mid: A,
    sm: S,
    n: nat,
    a2: A,
    s2: S,
) where S: State<SE>, A: Action<AE, SE, S, S>
    requires
        until_terminal_reaches(a, s, mid, sm, n),
        A::transition(mid, sm, a2, Ok(s2)),
        s2.spec_status() != Ok::<Status, SE>(Status::Terminal),
    ensures
        until_terminal_reaches(a, s, a2, s2, (n + 1) as nat),
    decreases n,
{
    if n == 0 {
        assert(A::transition(a, s, a2, Ok(s2)));
        assert(until_terminal_reaches(a2, s2, a2, s2, 0));
        assert(until_terminal_reaches(a, s, a2, s2, (n + 1) as nat));
    } else {
        let (a1, s1) = choose|a1: A, s1: S|
            #[trigger] A::transition(a, s, a1, Ok(s1)) && s1.spec_status() != Ok::<Status, SE>(
                Status::Terminal,
            ) && until_terminal_reaches(a1, s1, mid, sm, (n - 1) as nat);
        lemma_until_terminal_reaches_step(a1, s1, mid, sm, (n - 1) as nat, a2, s2);
        assert(until_terminal_reaches(a1, s1, a2, s2, n));
        assert(until_terminal_reaches(a, s, a2, s2, (n + 1) as nat));
    }
}

/// A run of the loop from a reachable point of the loop is a run of the loop
/// from its starting point.
proof fn lemma_until_terminal_prepend<AE, SE, S, A>(
    a: A,
    s: S,
    mid: A,
    sm: S,
    n: nat,
    post: A,
    r: Result<S, AE>,
    fuel: nat,
) where S: State<SE>, A: Action<AE, SE, S, S>
    requires
        until_terminal_reaches(a, s, mid, sm, n),
        until_terminal_runs(mid, sm, post, r, fuel),
    ensures
        until_terminal_runs(a, s, post, r, (n + fuel) as nat),
    decreases n,
{
    if n == 0 {
        assert(until_terminal_runs(a, s, post, r, fuel));
        if fuel < n + fuel {
            lemma_until_terminal_runs_weaken(a, s, post, r, fuel, (n + fuel) as nat);
        }
    } else {
        let (a1, s1) = choose|a1: A, s1: S|
            #[trigger] A::transition(a, s, a1, Ok(s1)) && s1.spec_status() != Ok::<Status, SE>(
                Status::Terminal,
            ) && until_terminal_reaches(a1, s1, mid, sm, (n - 1) as nat);
        lemma_until_terminal_prepend(a1, s1, mid, sm, (n - 1) as nat, post, r, fuel);
        assert(A::transition(a, s, a1, Ok(s1)) && until_terminal_runs(
            a1,
            s1,
            post,
            r,
            (n - 1 + fuel) as nat,
        ));
        assert(until_terminal_runs(a, s, post, r, (n + fuel) as nat));
    }
}

/// More fuel never removes an outcome of the loop.
proof fn lemma_until_terminal_runs_weaken<AE, SE, S, A>(
    a: A,
    s: S,
    post: A,
    r: Result<S, AE>,
    fuel1: nat,
    fuel2: nat,
) where S: State<SE>, A: Action<AE, SE, S, S>
    requires
        until_terminal_runs(a, s, post, r, fuel1),
        fuel1 <= fuel2,
    ensures
        until_terminal_runs(a, s, post, r, fuel2),
    decreases fuel1,
{
    let (mid, r1) = choose|mid: A, r1: Result<S, AE>|
        #[trigger] A::transition(a, s, mid, r1) && match r1 {
            Ok(s1) => {
                if s1.spec_status() == Ok::<Status, SE>(Status::Terminal) {
                    post == mid && r == Ok::<S, AE>(s1)
                } else {
                    fuel1 > 0 && until_terminal_runs(mid, s1, post, r, (fuel1 - 1) as nat)
                }
            },
            Err(e) => post == mid && r == Err::<S, AE>(e),
        };
    match r1 {
        Ok(s1) => {
            if s1.spec_status() != Ok::<Status, SE>(Status::Terminal) {
                lemma_until_terminal_runs_weaken(
                    mid,
                    s1,
                    post,
                    r,
                    (fuel1 - 1) as nat,
                    (fuel2 - 1) as nat,
                );
                assert(A::transition(a, s, mid, Ok(s1)));
            } else {
                assert(A::transition(a, s, mid, Ok(s1)));
            }
        },
        Err(e) => {
            assert(A::transition(a, s, mid, Err(e)));
        },
    }
    assert(until_terminal_runs(a, s, post, r, fuel2));
}

impl<AE, SE, S, A> Action<AE, SE, S, S> for RepeatUntilTerminal<A> where
    S: State<SE>,
    A: Action<AE, SE, S, S>,
 {
    open spec fn enabled(&self, input: &S) -> bool {
        &&& forall|n: nat, mid: A, sm: S|
            #[trigger] until_terminal_reaches(self.action, *input, mid, sm, n) ==> (mid.enabled(&sm)
                && forall|a2: A, s2: S|
                #[trigger] A::transition(mid, sm, a2, Ok(s2)) ==> s2.wf())
        &&& exists|fuel: nat| until_terminal_halts(self.action, *input, fuel)
    }

    open spec fn transition(pre: Self, input: S, post: Self, r: Result<S, AE>) -> bool {
        exists|fuel: nat| until_terminal_runs(pre.action, input, post.action, r, fuel)
    }

    #[verifier::loop_isolation(false)]
    fn apply(&mut self, state: S) -> (r: Result<S, AE>) {
        let ghost a0 = self.action;
        let ghost s0 = state;
        let ghost mut fuel: nat = choose|fuel: nat| until_terminal_halts(a0, s0, fuel);
        let ghost mut steps: nat = 0;
        let mut s = state;
        loop
            invariant
                until_terminal_reaches(a0, s0, self.action, s, steps),
                until_terminal_halts(self.action, s, fuel),
                forall|n: nat, mid: A, sm: S|
                    #[trigger] until_terminal_reaches(a0, s0, mid, sm, n) ==> (mid.enabled(&sm)
                        && forall|a2: A, s2: S|
                        #[trigger] A::transition(mid, sm, a2, Ok(s2)) ==> s2.wf()),
                forall|post: A, r2: Result<S, AE>, f: nat|
                    #[trigger] until_terminal_runs(self.action, s, post, r2, f) ==>
                    until_terminal_runs(a0, s0, post, r2, (steps + f) as nat),
            decreases fuel,
        {
            let ghost cur_a = self.action;
            let ghost cur_s = s;
            proof {
                assert(until_terminal_reaches(a0, s0, cur_a, cur_s, steps));
            }
            match self.action.apply(s) {
                Ok(s1) => {
                    proof {
                        assert(A::transition(cur_a, cur_s, self.action, Ok(s1)));
                        assert(s1.wf());
                    }
                    let st = s1.status();
                    let terminal = match st {
                        Ok(Status::Terminal) => true,
                        _ => false,
                    };
                    if terminal {
                        proof {
                            assert(until_terminal_runs(cur_a, cur_s, self.action, Ok(s1), 0));
                        }
                        return Ok(s1);
                    } else {
                        proof {
                            assert(s1.spec_status() != Ok::<Status, SE>(Status::Terminal));
                            assert(fuel > 0 && until_terminal_halts(
                                self.action,
                                s1,
                                (fuel - 1) as nat,
                            ));
                            lemma_until_terminal_reaches_step(
                                a0,
                                s0,
                                cur_a,
                                cur_s,
                                steps,
                                self.action,
                                s1,
                            );
                            let ghost new_a = self.action;
                            assert forall|post: A, r2: Result<S, AE>, f: nat|
                                #[trigger] until_terminal_runs(new_a, s1, post, r2, f) implies
                                until_terminal_runs(a0, s0, post, r2, (steps + 1 + f) as nat) by {
                                assert(until_terminal_runs(cur_a, cur_s, post, r2, (f + 1) as nat));
                            };
                            steps = (steps + 1) as nat;
                            fuel = (fuel - 1) as nat;
                        }
                        s = s1;
                    }
                },
                Err(e) => {
                    proof {
                        assert(A::transition(cur_a, cur_s, self.action, Err(e)));
                        assert(until_terminal_runs(cur_a, cur_s, self.action, Err(e), 0));
                    }
                    return Err(e);
                },
            }
        }
    }
}

/// Repeat until the game reaches a terminal state.
pub fn repeat_until_terminal<AE, SE, S, A>(action: A) -> (r: RepeatUntilTerminal<A>) where
    S: State<SE>,
    A: Action<AE, SE, S, S>,

    ensures
        r.action == action,
{
    RepeatUntilTerminal { action }
}

/// Attaches a zero-based, strictly incrementing index to each position
/// passed through, starting at 0 on its first invocation and incrementing by
/// exactly one per call, whatever the surrounding actions do.
pub struct Enumerate {
    pub index: usize,
}

impl<AE, SE, S> Action<AE, SE, S, (usize, S)> for Enumerate where S: State<SE> {
    open spec fn enabled(&self, input: &S) -> bool {
        self.index < usize::MAX
    }

    open spec fn transition(pre: Self, input: S, post: Self, r: Result<(usize, S), AE>) -> bool {
        &&& post.index == pre.index + 1
        &&& r == Ok::<(usize, S), AE>((pre.index, input))
    }

    fn apply(&mut self, state: S) -> (r: Result<(usize, S), AE>) {
        let i = self.index;
        self.index = self.index + 1;
        Ok((i, state))
    }
}

/// Apply an index to the state to track each call of an action.
pub fn enumerate() -> (r: Enumerate)
    ensures
        r.index == 0,
{
    Enumerate { index: 0 }
}

/// Feeds `action` the pair of the current call index and the input position;
/// the index starts at 0 and increments by exactly one per call, whether or
/// not the inner action succeeds.
pub struct EnumerateAction<A> {
    pub action: A,
    pub index: usize,
}

impl<AE, SE, S1, S2, A> Action<AE, SE, S1, S2> for EnumerateAction<A> where
    S1: State<SE>,
    S2: State<SE>,
    A: Action<AE, SE, (usize, S1), S2>,
 {
    open spec fn enabled(&self, input: &S1) -> bool {
        &&& self.index < usize::MAX
        &&& self.action.enabled(&(self.index, *input))
    }

    open spec fn transition(pre: Self, input: S1, post: Self, r: Result<S2, AE>) -> bool {
        &&& post.index == pre.index + 1
        &&& A::transition(pre.action, (pre.index, input), post.action, r)
    }

    fn apply(&mut self, state: S1) -> (r: Result<S2, AE>) {
        let i = self.index;
        self.index = self.index + 1;
        self.action.apply((i, state))
    }
}

/// Enumerate action.
pub fn enumerate_action<AE, SE, S1, S2, A>(action: A) -> (r: EnumerateAction<A>) where
    S1: State<SE>,
    S2: State<SE>,
    A: Action<AE, SE, (usize, S1), S2>,

    ensures
        r.action == action,
        r.index == 0,
{
    EnumerateAction { action, index: 0 }
}

/// A chain of consecutive applications of one `enumerate_action`: each step
/// records the action before the call, the input position, the action after
/// the call and the result, and each step starts from the action the
/// previous step left behind.
pub open spec fn enumerate_chain<AE, SE, S1, S2, A>(
    steps: Seq<(EnumerateAction<A>, S1, EnumerateAction<A>, Result<S2, AE>)>,
) -> bool where S1: State<SE>, S2: State<SE>, A: Action<AE, SE, (usize, S1), S2> {
    forall|k: int|
        0 <= k < steps.len() ==> {
            &&& <EnumerateAction<A> as Action<AE, SE, S1, S2>>::transition(
                (#[trigger] steps[k]).0,
                steps[k].1,
                steps[k].2,
                steps[k].3,
            )
            &&& k > 0 ==> steps[k].0 == steps[k - 1].2
        }
}

proof fn lemma_enumerate_chain_index<AE, SE, S1, S2, A>(
    steps: Seq<(EnumerateAction<A>, S1, EnumerateAction<A>, Result<S2, AE>)>,
    k: int,
) where S1: State<SE>, S2: State<SE>, A: Action<AE, SE, (usize, S1), S2>
    requires
        enumerate_chain(steps),
        0 <= k < steps.len(),
        steps[0].0.index == 0,
    ensures
        steps[k].0.index == k,
    decreases k,
{
    if k > 0 {
        lemma_enumerate_chain_index(steps, k - 1);
    }
}

/// In any chain of applications of a fresh `enumerate_action`, the `k`-th
/// application hands the inner action the index `k`, counting from zero,
/// whether or not any application in the chain succeeded.
pub proof fn lemma_enumerate_action_counts<AE, SE, S1, S2, A>(
    steps: Seq<(EnumerateAction<A>, S1, EnumerateAction<A>, Result<S2, AE>)>,
) where S1: State<SE>, S2: State<SE>, A: Action<AE, SE, (usize, S1), S2>
    requires
        enumerate_chain(steps),
        steps.len() > 0,
        steps[0].0.index == 0,
    ensures
        forall|k: int|
            0 <= k < steps.len() ==> A::transition(
                (#[trigger] steps[k]).0.action,
                (k as usize, steps[k].1),
                steps[k].2.action,
                steps[k].3,
            ),
{
    assert forall|k: int| 0 <= k < steps.len() implies A::transition(
        (#[trigger] steps[k]).0.action,
        (k as usize, steps[k].1),
        steps[k].2.action,
        steps[k].3,
    ) by {
        lemma_enumerate_chain_index(steps, k);
    }
}

impl<E, S: State<E>> State<E> for (usize, S) {
    open spec fn wf(&self) -> bool {
        self.1.wf()
    }

    open spec fn spec_status(&self) -> Result<Status, E> {
        self.1.spec_status()
    }

    fn status(&self) -> (r: Result<Status, E>) {
        self.1.status()
    }
}

impl<S: AsBytes> AsBytes for (usize, S) {
    open spec fn renderable(&self) -> bool {
        self.1.renderable()
    }

    open spec fn spec_bytes(&self) -> Seq<u8> {
        self.1.spec_bytes()
    }

    fn as_bytes(&self) -> (r: Vec<u8>) {
        self.1.as_bytes()
    }
}

/// A two-variant sum whose variants each carry their own position or error
/// type; it delegates status and rendering to whichever variant is active.
pub enum Either<L, R> {
    Left(L),
    Right(R),
}

impl<E, L, R> State<E> for Either<L, R> where L: State<E>, R: State<E> {
    open spec fn wf(&self) -> bool {
        match self {
            Either::Left(s) => s.wf(),
            Either::Right(s) => s.wf(),
        }
    }

    open spec fn spec_status(&self) -> Result<Status, E> {
        match self {
            Either::Left(s) => s.spec_status(),
            Either::Right(s) => s.spec_status(),
        }
    }

    fn status(&self) -> (r: Result<Status, E>) {
        match self {
            Either::Left(s) => s.status(),
            Either::Right(s) => s.status(),
        }
    }
}

impl<L, R> AsBytes for Either<L, R> where L: AsBytes, R: AsBytes {
    open spec fn renderable(&self) -> bool {
        match self {
            Either::Left(s) => s.renderable(),
            Either::Right(s) => s.renderable(),
        }
    }

    open spec fn spec_bytes(&self) -> Seq<u8> {
        match self {
            Either::Left(s) => s.spec_bytes(),
            Either::Right(s) => s.spec_bytes(),
        }
    }

    fn as_bytes(&self) -> (r: Vec<u8>) {
        match self {
            Either::Left(s) => s.as_bytes(),
            Either::Right(s) => s.as_bytes(),
        }
    }
}

/// Tags the result of the first branch of `if_then_else`.
pub open spec fn wrap_left<S2, S3, AE1, AE2>(r: Result<S2, AE1>) -> Result<
    Either<S2, S3>,
    Either<AE1, AE2>,
> {
    match r {
        Ok(s) => Ok(Either::Left(s)),
        Err(e) => Err(Either::Left(e)),
    }
}

/// Tags the result of the second branch of `if_then_else`.
pub open spec fn wrap_right<S2, S3, AE1, AE2>(r: Result<S3, AE2>) -> Result<
    Either<S2, S3>,
    Either<AE1, AE2>,
> {
    match r {
        Ok(s) => Ok(Either::Right(s)),
        Err(e) => Err(Either::Right(e)),
    }
}

/// Evaluates `cond` over the input position; when it holds, applies `a` and
/// tags the outcome `Left`, otherwise applies `b` and tags it `Right`.
pub struct IfThenElse<C, A, B> {
    pub cond: C,
    pub a: A,
    pub b: B,
}

impl<AE1, AE2, SE, S1, S2, S3, C, A, B> Action<Either<AE1, AE2>, SE, S1, Either<S2, S3>> for IfThenElse<
    C,
    A,
    B,
> where
    S1: State<SE>,
    S2: State<SE>,
    S3: State<SE>,
    C: Condition<S1>,
    A: Action<AE1, SE, S1, S2>,
    B: Action<AE2, SE, S1, S3>,
 {
    open spec fn enabled(&self, input: &S1) -> bool {
        &&& self.cond.holds(input) ==> self.a.enabled(input)
        &&& !self.cond.holds(input) ==> self.b.enabled(input)
    }

    open spec fn transition(
        pre: Self,
        input: S1,
        post: Self,
        r: Result<Either<S2, S3>, Either<AE1, AE2>>,
    ) -> bool {
        &&& post.cond == pre.cond
        &&& if pre.cond.holds(&input) {
            &&& post.b == pre.b
            &&& exists|ra: Result<S2, AE1>|
                #[trigger] A::transition(pre.a, input, post.a, ra) && r == wrap_left::<
                    S2,
                    S3,
                    AE1,
                    AE2,
                >(ra)
        } else {
            &&& post.a == pre.a
            &&& exists|rb: Result<S3, AE2>|
                #[trigger] B::transition(pre.b, input, post.b, rb) && r == wrap_right::<
                    S2,
                    S3,
                    AE1,
                    AE2,
                >(rb)
        }
    }

    fn apply(&mut self, state: S1) -> (r: Result<Either<S2, S3>, Either<AE1, AE2>>) {
        let ghost pre_a = self.a;
        let ghost pre_b = self.b;
        if self.cond.test(&state) {
            let ra = self.a.apply(state);
            proof {
                assert(A::transition(pre_a, state, self.a, ra));
            }
            match ra {
                Ok(s) => Ok(Either::Left(s)),
                Err(e) => Err(Either::Left(e)),
            }
        } else {
            let rb = self.b.apply(state);
            proof {
                assert(B::transition(pre_b, state, self.b, rb));
            }
            match rb {
                Ok(s) => Ok(Either::Right(s)),
                Err(e) => Err(Either::Right(e)),
            }
        }
    }
}

/// Conditionally apply actions.
pub fn if_then_else<AE1, AE2, SE, S1, S2, S3, C, A, B>(f: C, a: A, b: B) -> (r: IfThenElse<
    C,
    A,
    B,
>) where
    S1: State<SE>,
    S2: State<SE>,
    S3: State<SE>,
    C: Condition<S1>,
    A: Action<AE1, SE, S1, S2>,
    B: Action<AE2, SE, S1, S3>,

    ensures
        r.cond == f,
        r.a == a,
        r.b == b,
{
    IfThenElse { cond: f, a, b }
}

/// When the predicate holds of the input, `if_then_else` behaves exactly as
/// its first branch with the outcome tagged `Left`; when it does not, exactly
/// as its second branch with the outcome tagged `Right`.
pub proof fn lemma_if_then_else_branches<AE1, AE2, SE, S1, S2, S3, C, A, B>(
    pre: IfThenElse<C, A, B>,
    input: S1,
    post: IfThenElse<C, A, B>,
    r: Result<Either<S2, S3>, Either<AE1, AE2>>,
) where
    S1: State<SE>,
    S2: State<SE>,
    S3: State<SE>,
    C: Condition<S1>,
    A: Action<AE1, SE, S1, S2>,
    B: Action<AE2, SE, S1, S3>,

    requires
        <IfThenElse<C, A, B> as Action<Either<AE1, AE2>, SE, S1, Either<S2, S3>>>::transition(
            pre,
            input,
            post,
            r,
        ),
    ensures
        pre.cond.holds(&input) ==> exists|ra: Result<S2, AE1>|
            #[trigger] A::transition(pre.a, input, post.a, ra) && r == wrap_left::<S2, S3, AE1, AE2>(
                ra,
            ),
        !pre.cond.holds(&input) ==> exists|rb: Result<S3, AE2>|
            #[trigger] B::transition(pre.b, input, post.b, rb) && r == wrap_right::<
                S2,
                S3,
                AE1,
                AE2,
            >(rb),
{
}

/// Renders a position to the sink and passes the position through unchanged
/// on success; a write failure becomes the action's error and the position
/// is lost, not retried.
pub struct Render<W> {
    pub out: W,
}

impl<SE, S, W> Action<SinkError, SE, S, S> for Render<W> where S: State<SE> + AsBytes, W: Sink {
    open spec fn enabled(&self, input: &S) -> bool {
        input.renderable()
    }

    open spec fn transition(pre: Self, input: S, post: Self, r: Result<S, SinkError>) -> bool {
        exists|bv: Vec<u8>, wres: Result<(), SinkError>|
            {
                &&& bv@ == input.spec_bytes()
                &&& #[trigger] W::wrote(pre.out, bv, post.out, wres)
                &&& match wres {
                    Ok(_) => r == Ok::<S, SinkError>(input),
                    Err(e) => r == Err::<S, SinkError>(e),
                }
            }
    }

    fn apply(&mut self, state: S) -> (r: Result<S, SinkError>) {
        let ghost pre_out = self.out;
        let bytes = state.as_bytes();
        let wr = self.out.write_all(&bytes);
        proof {
            assert(W::wrote(pre_out, bytes, self.out, wr));
        }
        match wr {
            Ok(()) => Ok(state),
            Err(e) => Err(e),
        }
    }
}

/// Render the game state.
pub fn render<E, S, W>(out: W) -> (r: Render<W>) where S: State<E> + AsBytes, W: Sink
    ensures
        r.out == out,
{
    Render { out }
}

/// Lifts a player into an action that never fails: the action's error type
/// is the unit/empty error.
pub struct TakeTurn<P> {
    pub player: P,
}

impl<SE, S, P> Action<(), SE, S, S> for TakeTurn<P> where S: State<SE>, P: Player<S> {
    open spec fn enabled(&self, input: &S) -> bool {
        self.player.ready(input)
    }

    open spec fn transition(pre: Self, input: S, post: Self, r: Result<S, ()>) -> bool {
        &&& r is Ok
        &&& P::turn(pre.player, input, post.player, r->Ok_0)
    }

    fn apply(&mut self, state: S) -> (r: Result<S, ()>) {
        Ok(self.player.take_turn(state))
    }
}

/// Take a player's turn.
pub fn take_turn<SE, S, P>(player: P) -> (r: TakeTurn<P>) where S: State<SE>, P: Player<S>
    ensures
        r.player == player,
{
    TakeTurn { player }
}

} // verus!
